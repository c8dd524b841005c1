//! The wireless link of this machine, from the output of `iw` and `ip` and from counter files.

use crate::addr;
use crate::addr::IpAddr;
use crate::model;
use crate::model::{Reading, TrafficCounters, WifiLink};
use crate::number;
use crate::text;
use vstd::prelude::*;

verus! {

// ---------------------------------------------------------------------------------------------
// Words

/// The first word of `s`.
pub open spec fn first_word(s: Seq<char>) -> Option<Seq<char>> {
    let w = text::words(s);
    if w.len() > 0 {
        Some(w[0])
    } else {
        None
    }
}

/// The position of the first of the words from `from` on that is `word`.
pub open spec fn word_at(words: Seq<Seq<char>>, word: Seq<char>, from: int) -> Option<int>
    decreases words.len() - from,
{
    if from >= words.len() {
        None
    } else if words[from] == word {
        Some(from)
    } else {
        word_at(words, word, from + 1)
    }
}

/// The word behind the first `word`.
pub open spec fn word_behind(words: Seq<Seq<char>>, word: Seq<char>) -> Option<Seq<char>> {
    match word_at(words, word, 0) {
        Some(i) if i + 1 < words.len() => Some(words[i + 1]),
        _ => None,
    }
}

/// The first word of `s`.
pub fn first_word_of(s: &str) -> (r: Option<String>)
    ensures
        text::opt_text(r) == first_word(s@),
{
    let w: Vec<String> = text::words_of(s);
    assert(text::texts(w@).len() == w@.len());
    if w.len() > 0 {
        assert(text::texts(w@)[0] == w@[0]@);
        Some(w[0].clone())
    } else {
        None
    }
}

/// The position of the first of the words that is `word`.
pub fn word_at_of(words: &Vec<String>, word: &str) -> (r: Option<usize>)
    ensures
        match r {
            Some(i) => word_at(text::texts(words@), word@, 0) == Some(i as int) && i
                < words@.len(),
            None => word_at(text::texts(words@), word@, 0) is None,
        },
{
    let mut i: usize = 0;
    while i < words.len()
        invariant
            i <= words@.len(),
            word_at(text::texts(words@), word@, 0) == word_at(
                text::texts(words@),
                word@,
                i as int,
            ),
        decreases words@.len() - i,
    {
        assert(text::texts(words@)[i as int] == words@[i as int]@);
        if text::same_text(words[i].as_str(), word) {
            return Some(i);
        }
        i = i + 1;
    }
    None
}

/// The word behind the first `word`.
pub fn word_behind_of(words: &Vec<String>, word: &str) -> (r: Option<String>)
    ensures
        text::opt_text(r) == word_behind(text::texts(words@), word@),
{
    match word_at_of(words, word) {
        Some(i) => {
            if words.len() - i > 1 {
                assert(text::texts(words@)[i + 1] == words@[i + 1]@);
                Some(words[i + 1].clone())
            } else {
                None
            }
        },
        None => None,
    }
}

// ---------------------------------------------------------------------------------------------
// Readings

/// The models of a table of readings.
pub open spec fn reading_views(v: Seq<Reading>) -> Seq<model::ReadingView> {
    v.map_values(|r: Reading| r@)
}

/// The reading of `token` in a table, from position `from` on.
pub open spec fn reading_from(
    table: Seq<model::ReadingView>,
    token: Seq<char>,
    from: int,
) -> Option<model::ReadingView>
    decreases table.len() - from,
{
    if from >= table.len() {
        None
    } else if table[from].token == token {
        Some(table[from])
    } else {
        reading_from(table, token, from + 1)
    }
}

/// The reading of the first word of `s`; a word that the table lacks is no number.
pub open spec fn first_reading(table: Seq<model::ReadingView>, s: Seq<char>) -> Option<
    model::ReadingView,
> {
    match first_word(s) {
        Some(token) => reading_from(table, token, 0),
        None => None,
    }
}

/// The reading of the first word of `s`.
pub fn parse_bitrate(table: &Vec<Reading>, s: &str) -> (r: Option<Reading>)
    ensures
        model::opt_reading(r) == first_reading(reading_views(table@), s@),
{
    match first_word_of(s) {
        Some(token) => {
            let mut i: usize = 0;
            while i < table.len()
                invariant
                    i <= table@.len(),
                    reading_from(reading_views(table@), token@, 0) == reading_from(
                        reading_views(table@),
                        token@,
                        i as int,
                    ),
                    first_word(s@) == Some(token@),
                decreases table@.len() - i,
            {
                assert(reading_views(table@)[i as int] == table@[i as int]@);
                if text::same_text(table[i].token.as_str(), token.as_str()) {
                    return Some(table[i].copy());
                }
                i = i + 1;
            }
            None
        },
        None => None,
    }
}

// ---------------------------------------------------------------------------------------------
// iw dev <iface> link

/// The link after one line of `iw dev <iface> link`.
pub open spec fn link_line(
    link: model::WifiLinkView,
    line: Seq<char>,
    table: Seq<model::ReadingView>,
) -> model::WifiLinkView {
    let t = text::trim(line);
    if text::starts_with(t, "Connected to "@) {
        match first_word(t.skip("Connected to "@.len() as int)) {
            Some(bssid) => model::WifiLinkView { bssid: Some(bssid), ..link },
            None => link,
        }
    } else if text::starts_with(t, "SSID: "@) {
        model::WifiLinkView { ssid: Some(t.skip("SSID: "@.len() as int)), ..link }
    } else if text::starts_with(t, "freq: "@) {
        match first_reading(table, t.skip("freq: "@.len() as int)) {
            Some(r) if r.positive => model::WifiLinkView { freq_mhz: Some(r.nearest), ..link },
            _ => link,
        }
    } else if text::starts_with(t, "signal: "@) {
        match first_word(t.skip("signal: "@.len() as int)) {
            Some(w) => match number::signed_numeral(w) {
                Some(dbm) => model::WifiLinkView { signal_dbm: Some(dbm as i32), ..link },
                None => link,
            },
            None => link,
        }
    } else if text::starts_with(t, "rx bitrate: "@) {
        model::WifiLinkView {
            rx_bitrate_mbps: first_reading(table, t.skip("rx bitrate: "@.len() as int)),
            ..link
        }
    } else if text::starts_with(t, "tx bitrate: "@) {
        model::WifiLinkView {
            tx_bitrate_mbps: first_reading(table, t.skip("tx bitrate: "@.len() as int)),
            ..link
        }
    } else {
        link
    }
}

/// The link after the lines of `iw dev <iface> link`.
pub open spec fn link_lines(
    link: model::WifiLinkView,
    lines: Seq<Seq<char>>,
    table: Seq<model::ReadingView>,
) -> model::WifiLinkView
    decreases lines.len(),
{
    if lines.len() == 0 {
        link
    } else {
        link_line(link_lines(link, lines.drop_last(), table), lines.last(), table)
    }
}

fn parse_iw_link_line(line: &str, table: &Vec<Reading>, link: &mut WifiLink)
    ensures
        final(link)@ == link_line(old(link)@, line@, reading_views(table@)),
{
    let t: String = text::trim_str(line);
    if let Some(rest) = text::strip_prefix_str(t.as_str(), "Connected to ") {
        if let Some(bssid) = first_word_of(rest.as_str()) {
            link.bssid = Some(bssid);
        }
    } else if let Some(ssid) = text::strip_prefix_str(t.as_str(), "SSID: ") {
        link.ssid = Some(ssid);
    } else if let Some(freq) = text::strip_prefix_str(t.as_str(), "freq: ") {
        if let Some(r) = parse_bitrate(table, freq.as_str()) {
            if r.positive {
                link.freq_mhz = Some(r.nearest);
            }
        }
    } else if let Some(sig) = text::strip_prefix_str(t.as_str(), "signal: ") {
        if let Some(w) = first_word_of(sig.as_str()) {
            if let Some(dbm) = number::parse_i32(w.as_str()) {
                link.signal_dbm = Some(dbm);
            }
        }
    } else if let Some(rest) = text::strip_prefix_str(t.as_str(), "rx bitrate: ") {
        link.rx_bitrate_mbps = parse_bitrate(table, rest.as_str());
    } else if let Some(rest) = text::strip_prefix_str(t.as_str(), "tx bitrate: ") {
        link.tx_bitrate_mbps = parse_bitrate(table, rest.as_str());
    }
}

/// Takes over what `iw dev <iface> link` printed. `table` holds the readings of its numbers with a
/// fraction.
pub fn parse_iw_link(out: &str, table: &Vec<Reading>, link: &mut WifiLink)
    ensures
        final(link)@ == link_lines(old(link)@, text::lines(out@), reading_views(table@)),
{
    let lines: Vec<String> = text::lines_of(out);
    let ghost model = text::texts(lines@);
    let ghost start = link@;
    let mut i: usize = 0;
    assert(model.take(0) =~= seq![]);
    while i < lines.len()
        invariant
            i <= lines@.len(),
            model == text::texts(lines@),
            link@ == link_lines(start, model.take(i as int), reading_views(table@)),
        decreases lines@.len() - i,
    {
        assert(model[i as int] == lines@[i as int]@);
        assert(model.take(i + 1).drop_last() =~= model.take(i as int));
        parse_iw_link_line(lines[i].as_str(), table, link);
        i = i + 1;
    }
    assert(model.take(i as int) =~= model);
}

// ---------------------------------------------------------------------------------------------
// iw dev <iface> info

/// The number behind the word `width:`.
pub open spec fn channel_width(words: Seq<Seq<char>>) -> Option<nat> {
    match word_behind(words, "width:"@) {
        Some(w) => number::unsigned_numeral(w, u32::MAX as nat),
        None => None,
    }
}

/// The frequency in brackets: the first word behind the first opening bracket.
pub open spec fn bracket_frequency(t: Seq<char>) -> Option<nat> {
    match text::find(t, "("@) {
        Some(i) => match first_word(t.skip(i + 1)) {
            Some(w) => number::unsigned_numeral(w, u32::MAX as nat),
            None => None,
        },
        None => None,
    }
}

/// `new` where it is known, else `old`.
pub open spec fn or_keep(new: Option<nat>, old: Option<u32>) -> Option<u32> {
    match new {
        Some(n) => Some(n as u32),
        None => old,
    }
}

/// The link after one line of `iw dev <iface> info`. A network name and a frequency that are
/// already known stay.
pub open spec fn info_line(link: model::WifiLinkView, line: Seq<char>) -> model::WifiLinkView {
    let t = text::trim(line);
    if text::starts_with(t, "ssid "@) {
        if link.ssid is None {
            model::WifiLinkView { ssid: Some(t.skip("ssid "@.len() as int)), ..link }
        } else {
            link
        }
    } else if text::starts_with(t, "channel "@) {
        let words = text::words(t);
        let channel = if words.len() >= 2 {
            number::unsigned_numeral(words[1], u32::MAX as nat)
        } else {
            None
        };
        model::WifiLinkView {
            channel: or_keep(channel, link.channel),
            channel_width_mhz: or_keep(channel_width(words), link.channel_width_mhz),
            freq_mhz: if link.freq_mhz is None {
                or_keep(bracket_frequency(t), None)
            } else {
                link.freq_mhz
            },
            ..link
        }
    } else {
        link
    }
}

/// The link after the lines of `iw dev <iface> info`.
pub open spec fn info_lines(link: model::WifiLinkView, lines: Seq<Seq<char>>) -> model::WifiLinkView
    decreases lines.len(),
{
    if lines.len() == 0 {
        link
    } else {
        info_line(info_lines(link, lines.drop_last()), lines.last())
    }
}

fn parse_iw_info_line(line: &str, link: &mut WifiLink)
    ensures
        final(link)@ == info_line(old(link)@, line@),
{
    let t: String = text::trim_str(line);
    if let Some(ssid) = text::strip_prefix_str(t.as_str(), "ssid ") {
        if link.ssid.is_none() {
            link.ssid = Some(ssid);
        }
    } else if text::starts_with_str(t.as_str(), "channel ") {
        let parts: Vec<String> = text::words_of(t.as_str());
        let ghost model = text::texts(parts@);
        assert(model.len() == parts@.len());
        if parts.len() >= 2 {
            assert(model[1] == parts@[1]@);
            if let Some(ch) = number::parse_u32(parts[1].as_str()) {
                link.channel = Some(ch);
            }
        }
        if let Some(w) = word_behind_of(&parts, "width:") {
            if let Some(width) = number::parse_u32(w.as_str()) {
                link.channel_width_mhz = Some(width);
            }
        }
        if link.freq_mhz.is_none() {
            proof {
                reveal_strlit("(");
            }
            if let Some(paren) = text::find_str(t.as_str(), "(") {
                let chars: Vec<char> = text::chars_of(t.as_str());
                let n: usize = chars.len();
                let rest: String = text::slice_string(&chars, paren + 1, n);
                assert(rest@ =~= t@.skip(paren + 1));
                if let Some(mhz) = first_word_of(rest.as_str()) {
                    if let Some(f) = number::parse_u32(mhz.as_str()) {
                        link.freq_mhz = Some(f);
                    }
                }
            }
        }
    }
}

/// Takes over what `iw dev <iface> info` printed.
pub fn parse_iw_info(out: &str, link: &mut WifiLink)
    ensures
        final(link)@ == info_lines(old(link)@, text::lines(out@)),
{
    let lines: Vec<String> = text::lines_of(out);
    let ghost model = text::texts(lines@);
    let ghost start = link@;
    let mut i: usize = 0;
    assert(model.take(0) =~= seq![]);
    while i < lines.len()
        invariant
            i <= lines@.len(),
            model == text::texts(lines@),
            link@ == info_lines(start, model.take(i as int)),
        decreases lines@.len() - i,
    {
        assert(model[i as int] == lines@[i as int]@);
        assert(model.take(i + 1).drop_last() =~= model.take(i as int));
        parse_iw_info_line(lines[i].as_str(), link);
        i = i + 1;
    }
    assert(model.take(i as int) =~= model);
}

// ---------------------------------------------------------------------------------------------
// iw dev <iface> station dump

/// The first of the words from `from` on that is a number with an optional sign.
pub open spec fn first_number(words: Seq<Seq<char>>, from: int) -> Option<int>
    decreases words.len() - from,
{
    if from >= words.len() {
        None
    } else if number::signed_numeral(words[from]) is Some {
        number::signed_numeral(words[from])
    } else {
        first_number(words, from + 1)
    }
}

/// The link after one line of `iw dev <iface> station dump`.
pub open spec fn station_line(
    link: model::WifiLinkView,
    line: Seq<char>,
    table: Seq<model::ReadingView>,
) -> model::WifiLinkView {
    let t = text::trim(line);
    if text::starts_with(t, "signal:"@) {
        match first_number(text::words(t.skip("signal:"@.len() as int)), 0) {
            Some(dbm) => model::WifiLinkView { signal_dbm: Some(dbm as i32), ..link },
            None => link,
        }
    } else if text::starts_with(t, "tx bitrate:"@) {
        model::WifiLinkView {
            tx_bitrate_mbps: first_reading(table, t.skip("tx bitrate:"@.len() as int)),
            ..link
        }
    } else if text::starts_with(t, "rx bitrate:"@) {
        model::WifiLinkView {
            rx_bitrate_mbps: first_reading(table, t.skip("rx bitrate:"@.len() as int)),
            ..link
        }
    } else if text::starts_with(t, "connected time:"@) {
        match first_word(t.skip("connected time:"@.len() as int)) {
            Some(w) => match number::unsigned_numeral(w, u64::MAX as nat) {
                Some(secs) => model::WifiLinkView { connected_secs: Some(secs as u64), ..link },
                None => link,
            },
            None => link,
        }
    } else {
        link
    }
}

/// The link after the lines of `iw dev <iface> station dump`.
pub open spec fn station_lines(
    link: model::WifiLinkView,
    lines: Seq<Seq<char>>,
    table: Seq<model::ReadingView>,
) -> model::WifiLinkView
    decreases lines.len(),
{
    if lines.len() == 0 {
        link
    } else {
        station_line(station_lines(link, lines.drop_last(), table), lines.last(), table)
    }
}

fn first_number_of(words: &Vec<String>) -> (r: Option<i32>)
    ensures
        match r {
            Some(n) => first_number(text::texts(words@), 0) == Some(n as int),
            None => first_number(text::texts(words@), 0) is None,
        },
{
    let mut i: usize = 0;
    while i < words.len()
        invariant
            i <= words@.len(),
            first_number(text::texts(words@), 0) == first_number(text::texts(words@), i as int),
        decreases words@.len() - i,
    {
        assert(text::texts(words@)[i as int] == words@[i as int]@);
        if let Some(n) = number::parse_i32(words[i].as_str()) {
            return Some(n);
        }
        i = i + 1;
    }
    None
}

fn parse_station_line(line: &str, table: &Vec<Reading>, link: &mut WifiLink)
    ensures
        final(link)@ == station_line(old(link)@, line@, reading_views(table@)),
{
    let t: String = text::trim_str(line);
    if let Some(rest) = text::strip_prefix_str(t.as_str(), "signal:") {
        let words: Vec<String> = text::words_of(rest.as_str());
        if let Some(dbm) = first_number_of(&words) {
            link.signal_dbm = Some(dbm);
        }
    } else if let Some(rest) = text::strip_prefix_str(t.as_str(), "tx bitrate:") {
        link.tx_bitrate_mbps = parse_bitrate(table, rest.as_str());
    } else if let Some(rest) = text::strip_prefix_str(t.as_str(), "rx bitrate:") {
        link.rx_bitrate_mbps = parse_bitrate(table, rest.as_str());
    } else if let Some(rest) = text::strip_prefix_str(t.as_str(), "connected time:") {
        if let Some(w) = first_word_of(rest.as_str()) {
            if let Some(secs) = number::parse_u64(w.as_str()) {
                link.connected_secs = Some(secs);
            }
        }
    }
}

/// Takes over what `iw dev <iface> station dump` printed. `table` holds the readings of its numbers
/// with a fraction.
pub fn parse_station_dump(out: &str, table: &Vec<Reading>, link: &mut WifiLink)
    ensures
        final(link)@ == station_lines(old(link)@, text::lines(out@), reading_views(table@)),
{
    let lines: Vec<String> = text::lines_of(out);
    let ghost model = text::texts(lines@);
    let ghost start = link@;
    let mut i: usize = 0;
    assert(model.take(0) =~= seq![]);
    while i < lines.len()
        invariant
            i <= lines@.len(),
            model == text::texts(lines@),
            link@ == station_lines(start, model.take(i as int), reading_views(table@)),
        decreases lines@.len() - i,
    {
        assert(model[i as int] == lines@[i as int]@);
        assert(model.take(i + 1).drop_last() =~= model.take(i as int));
        parse_station_line(lines[i].as_str(), table, link);
        i = i + 1;
    }
    assert(model.take(i as int) =~= model);
}

// ---------------------------------------------------------------------------------------------
// Numbers with a fraction

/// The text of the number with a fraction that a line of `iw` prints.
pub open spec fn fraction_token(line: Seq<char>) -> Option<Seq<char>> {
    let t = text::trim(line);
    if text::starts_with(t, "freq:"@) {
        first_word(t.skip("freq:"@.len() as int))
    } else if text::starts_with(t, "rx bitrate:"@) {
        first_word(t.skip("rx bitrate:"@.len() as int))
    } else if text::starts_with(t, "tx bitrate:"@) {
        first_word(t.skip("tx bitrate:"@.len() as int))
    } else {
        None
    }
}

/// The texts of the numbers with a fraction in some lines, in order.
pub open spec fn fraction_tokens(lines: Seq<Seq<char>>) -> Seq<Seq<char>>
    decreases lines.len(),
{
    if lines.len() == 0 {
        seq![]
    } else {
        let before = fraction_tokens(lines.drop_last());
        match fraction_token(lines.last()) {
            Some(token) => before.push(token),
            None => before,
        }
    }
}

fn fraction_token_of(line: &str) -> (r: Option<String>)
    ensures
        text::opt_text(r) == fraction_token(line@),
{
    let t: String = text::trim_str(line);
    if let Some(rest) = text::strip_prefix_str(t.as_str(), "freq:") {
        first_word_of(rest.as_str())
    } else if let Some(rest) = text::strip_prefix_str(t.as_str(), "rx bitrate:") {
        first_word_of(rest.as_str())
    } else if let Some(rest) = text::strip_prefix_str(t.as_str(), "tx bitrate:") {
        first_word_of(rest.as_str())
    } else {
        None
    }
}

/// The texts of the numbers with a fraction that `iw` printed: those whose readings
/// [`parse_iw_link`] and [`parse_station_dump`] may ask for.
pub fn fraction_tokens_of(out: &str) -> (tokens: Vec<String>)
    ensures
        text::texts(tokens@) == fraction_tokens(text::lines(out@)),
{
    let lines: Vec<String> = text::lines_of(out);
    let ghost model = text::texts(lines@);
    let mut tokens: Vec<String> = Vec::new();
    let mut i: usize = 0;
    assert(model.take(0) =~= seq![]);
    assert(text::texts(tokens@) =~= seq![]);
    while i < lines.len()
        invariant
            i <= lines@.len(),
            model == text::texts(lines@),
            text::texts(tokens@) == fraction_tokens(model.take(i as int)),
        decreases lines@.len() - i,
    {
        assert(model[i as int] == lines@[i as int]@);
        assert(model.take(i + 1).drop_last() =~= model.take(i as int));
        if let Some(token) = fraction_token_of(lines[i].as_str()) {
            proof {
                text::lemma_texts_push(tokens@, token);
            }
            tokens.push(token);
        }
        i = i + 1;
    }
    assert(model.take(i as int) =~= model);
    tokens
}

/// Two tables give the same readings for each of the tokens.
pub open spec fn tables_agree(
    a: Seq<model::ReadingView>,
    b: Seq<model::ReadingView>,
    tokens: Seq<Seq<char>>,
) -> bool {
    forall|i: int|
        0 <= i < tokens.len() ==> reading_from(a, #[trigger] tokens[i], 0) == reading_from(
            b,
            tokens[i],
            0,
        )
}

/// A space before a text does not change its first word.
proof fn lemma_first_word_behind_space(t: Seq<char>, prefix: Seq<char>, spaced: Seq<char>)
    requires
        spaced == prefix.push(' '),
        text::starts_with(t, spaced),
    ensures
        text::starts_with(t, prefix),
        first_word(t.skip(prefix.len() as int)) == first_word(t.skip(spaced.len() as int)),
{
    assert(t.take(spaced.len() as int)[prefix.len() as int] == ' ');
    assert(t.take(prefix.len() as int) =~= t.take(spaced.len() as int).take(prefix.len() as int));
    assert(spaced.take(prefix.len() as int) =~= prefix);
    let rest = t.skip(prefix.len() as int);
    assert(rest[0] == ' ');
    assert(rest.drop_first() =~= t.skip(spaced.len() as int));
}

/// Every reading that a line of `iw dev <iface> link` asks for is that of its token.
proof fn lemma_link_line_token(
    link: model::WifiLinkView,
    line: Seq<char>,
    a: Seq<model::ReadingView>,
    b: Seq<model::ReadingView>,
)
    requires
        fraction_token(line) matches Some(token) ==> reading_from(a, token, 0) == reading_from(
            b,
            token,
            0,
        ),
    ensures
        link_line(link, line, a) == link_line(link, line, b),
{
    let t = text::trim(line);
    reveal_strlit("freq:");
    reveal_strlit("freq: ");
    reveal_strlit("rx bitrate:");
    reveal_strlit("rx bitrate: ");
    reveal_strlit("tx bitrate:");
    reveal_strlit("tx bitrate: ");
    if text::starts_with(t, "freq: "@) {
        assert("freq: "@ =~= "freq:"@.push(' '));
        lemma_first_word_behind_space(t, "freq:"@, "freq: "@);
    } else if text::starts_with(t, "rx bitrate: "@) {
        assert("rx bitrate: "@ =~= "rx bitrate:"@.push(' '));
        lemma_first_word_behind_space(t, "rx bitrate:"@, "rx bitrate: "@);
        assert(t[0] == t.take("rx bitrate: "@.len() as int)[0]);
        if text::starts_with(t, "freq:"@) {
            assert(t[0] == t.take("freq:"@.len() as int)[0]);
        }
    } else if text::starts_with(t, "tx bitrate: "@) {
        assert("tx bitrate: "@ =~= "tx bitrate:"@.push(' '));
        lemma_first_word_behind_space(t, "tx bitrate:"@, "tx bitrate: "@);
        assert(t[0] == t.take("tx bitrate: "@.len() as int)[0]);
        if text::starts_with(t, "freq:"@) {
            assert(t[0] == t.take("freq:"@.len() as int)[0]);
        }
        if text::starts_with(t, "rx bitrate:"@) {
            assert(t[0] == t.take("rx bitrate:"@.len() as int)[0]);
        }
    }
}

/// Every reading that a line of `iw dev <iface> station dump` asks for is that of its token.
proof fn lemma_station_line_token(
    link: model::WifiLinkView,
    line: Seq<char>,
    a: Seq<model::ReadingView>,
    b: Seq<model::ReadingView>,
)
    requires
        fraction_token(line) matches Some(token) ==> reading_from(a, token, 0) == reading_from(
            b,
            token,
            0,
        ),
    ensures
        station_line(link, line, a) == station_line(link, line, b),
{
    let t = text::trim(line);
    reveal_strlit("freq:");
    reveal_strlit("rx bitrate:");
    reveal_strlit("tx bitrate:");
    if text::starts_with(t, "rx bitrate:"@) {
        assert(t[0] == t.take("rx bitrate:"@.len() as int)[0]);
        if text::starts_with(t, "freq:"@) {
            assert(t[0] == t.take("freq:"@.len() as int)[0]);
        }
    }
    if text::starts_with(t, "tx bitrate:"@) {
        assert(t[0] == t.take("tx bitrate:"@.len() as int)[0]);
        if text::starts_with(t, "freq:"@) {
            assert(t[0] == t.take("freq:"@.len() as int)[0]);
        }
        if text::starts_with(t, "rx bitrate:"@) {
            assert(t[0] == t.take("rx bitrate:"@.len() as int)[0]);
        }
    }
}

/// The readings of the tokens that [`fraction_tokens`] lists decide the link: what else a table
/// holds does not matter.
pub proof fn law_tokens_suffice(
    link: model::WifiLinkView,
    lines: Seq<Seq<char>>,
    a: Seq<model::ReadingView>,
    b: Seq<model::ReadingView>,
)
    requires
        tables_agree(a, b, fraction_tokens(lines)),
    ensures
        link_lines(link, lines, a) == link_lines(link, lines, b),
        station_lines(link, lines, a) == station_lines(link, lines, b),
    decreases lines.len(),
{
    if lines.len() > 0 {
        let before = fraction_tokens(lines.drop_last());
        let all = fraction_tokens(lines);
        assert forall|i: int| 0 <= i < before.len() implies reading_from(
            a,
            #[trigger] before[i],
            0,
        ) == reading_from(b, before[i], 0) by {
            assert(all[i] == before[i]);
        }
        law_tokens_suffice(link, lines.drop_last(), a, b);
        if let Some(token) = fraction_token(lines.last()) {
            assert(all.last() == token);
            assert(all[all.len() - 1] == token);
        }
        lemma_link_line_token(link_lines(link, lines.drop_last(), a), lines.last(), a, b);
        lemma_station_line_token(station_lines(link, lines.drop_last(), a), lines.last(), a, b);
    }
}

// ---------------------------------------------------------------------------------------------
// Addresses

/// The address behind the word `inet` of a line, without its prefix length: nothing where the
/// line has no such word, else what the word behind it writes.
pub open spec fn inet_of_line(line: Seq<char>) -> Option<Option<IpAddr>> {
    match word_behind(text::words(line), "inet"@) {
        Some(cidr) => Some(addr::ip(text::split_on(cidr, "/"@)[0])),
        None => None,
    }
}

/// The address of the first of the lines from `from` on that has one.
pub open spec fn inet_of_lines(lines: Seq<Seq<char>>, from: int) -> Option<IpAddr>
    decreases lines.len() - from,
{
    if from >= lines.len() {
        None
    } else {
        match inet_of_line(lines[from]) {
            Some(a) => a,
            None => inet_of_lines(lines, from + 1),
        }
    }
}

/// The address that `ip -4 -o addr show dev <iface>` printed.
pub fn primary_ipv4(out: &str) -> (r: Option<IpAddr>)
    ensures
        r == inet_of_lines(text::lines(out@), 0),
{
    let lines: Vec<String> = text::lines_of(out);
    let ghost model = text::texts(lines@);
    let mut i: usize = 0;
    while i < lines.len()
        invariant
            i <= lines@.len(),
            model == text::texts(lines@),
            model == text::lines(out@),
            inet_of_lines(model, 0) == inet_of_lines(model, i as int),
        decreases lines@.len() - i,
    {
        assert(model[i as int] == lines@[i as int]@);
        let parts: Vec<String> = text::words_of(lines[i].as_str());
        if let Some(cidr) = word_behind_of(&parts, "inet") {
            proof {
                reveal_strlit("/");
            }
            let pieces: Vec<String> = text::split_str(cidr.as_str(), "/");
            assert(text::texts(pieces@).len() > 0);
            assert(text::texts(pieces@)[0] == pieces@[0]@);
            return addr::parse_ip(pieces[0].as_str());
        }
        i = i + 1;
    }
    None
}

/// A line of the routing table leads to a default gateway of the wanted interface.
pub open spec fn is_default_route(line: Seq<char>, iface: Option<Seq<char>>) -> bool {
    &&& text::contains(line, "default"@)
    &&& iface is Some ==> word_behind(text::words(line), "dev"@) == iface
}

/// The gateway of the first of the lines from `from` on that is a default route with one.
pub open spec fn gateway_of_lines(
    lines: Seq<Seq<char>>,
    iface: Option<Seq<char>>,
    from: int,
) -> Option<IpAddr>
    decreases lines.len() - from,
{
    if from >= lines.len() {
        None
    } else {
        match word_behind(text::words(lines[from]), "via"@) {
            Some(gw) if is_default_route(lines[from], iface) => addr::ip(gw),
            _ => gateway_of_lines(lines, iface, from + 1),
        }
    }
}

/// The default gateway, of the interface `iface` where it is given, that `ip route show default`
/// printed.
pub fn default_gateway(out: &str, iface: Option<&str>) -> (r: Option<IpAddr>)
    ensures
        r == gateway_of_lines(text::lines(out@), text::opt_str(iface), 0),
{
    let lines: Vec<String> = text::lines_of(out);
    let ghost model = text::texts(lines@);
    let mut i: usize = 0;
    while i < lines.len()
        invariant
            i <= lines@.len(),
            model == text::texts(lines@),
            model == text::lines(out@),
            gateway_of_lines(model, text::opt_str(iface), 0) == gateway_of_lines(
                model,
                text::opt_str(iface),
                i as int,
            ),
        decreases lines@.len() - i,
    {
        assert(model[i as int] == lines@[i as int]@);
        let parts: Vec<String> = text::words_of(lines[i].as_str());
        let wanted: bool = match iface {
            Some(want) => match word_behind_of(&parts, "dev") {
                Some(dev) => text::same_text(dev.as_str(), want),
                None => false,
            },
            None => true,
        };
        if wanted && text::contains_str(lines[i].as_str(), "default") {
            if let Some(gw) = word_behind_of(&parts, "via") {
                return addr::parse_ip(gw.as_str());
            }
        }
        i = i + 1;
    }
    None
}

/// The hardware address that an address file holds.
pub open spec fn hardware_address(file: Option<Seq<char>>) -> Option<Seq<char>> {
    match file {
        Some(s) => Some(text::lower(text::trim(s))),
        None => None,
    }
}

/// The hardware address that an address file holds.
pub fn local_mac(file: &Option<String>) -> (r: Option<String>)
    ensures
        text::opt_text(r) == hardware_address(text::opt_text(*file)),
{
    match file {
        Some(s) => Some(text::lower_str(text::trim_str(s.as_str()).as_str())),
        None => None,
    }
}

// ---------------------------------------------------------------------------------------------
// Commands

/// Why a command gave no output: it could not be run, or it failed and wrote `stderr`.
pub open spec fn command_error(bin: Seq<char>, stderr: Option<Seq<char>>) -> Seq<char> {
    match stderr {
        Some(e) => bin + " failed: "@ + e,
        None => "running "@ + bin,
    }
}

/// Why the command `bin` gave no output.
pub fn command_error_of(bin: &str, stderr: &Option<String>) -> (r: String)
    ensures
        r@ == command_error(bin@, text::opt_text(*stderr)),
{
    match stderr {
        Some(e) => text::join3(bin, " failed: ", e.as_str()),
        None => text::join2("running ", bin),
    }
}

// ---------------------------------------------------------------------------------------------
// Interfaces

/// The place of the interface `name` in the file system.
pub open spec fn iface_path(name: Seq<char>) -> Seq<char> {
    "/sys/class/net/"@ + name
}

/// The interface that a line of `ip -br link` names, without what stands behind an at sign.
pub open spec fn line_name(line: Seq<char>) -> Option<Seq<char>> {
    let words = text::words(line);
    if words.len() >= 2 {
        Some(text::split_on(words[0], "@"@)[0])
    } else {
        None
    }
}

/// The interface `name` is wireless: it is among those that have a directory for it, or its name
/// says so.
pub open spec fn wireless_name(name: Seq<char>, listed: Seq<Seq<char>>) -> bool {
    listed.contains(name) || text::starts_with(name, "wlan"@) || text::starts_with(name, "wlp"@)
}

/// The wireless interface that a line of `ip -br link` names.
pub open spec fn wireless_of_line(line: Seq<char>, listed: Seq<Seq<char>>) -> Option<Seq<char>> {
    match line_name(line) {
        Some(name) if wireless_name(name, listed) => Some(name),
        _ => None,
    }
}

/// A line of `ip -br link` says that its interface is up.
pub open spec fn line_is_up(line: Seq<char>) -> bool {
    text::contains(text::words(line)[1], "UP"@)
}

/// The first wireless interface in the lines.
pub open spec fn first_wireless(lines: Seq<Seq<char>>, listed: Seq<Seq<char>>) -> Option<Seq<char>>
    decreases lines.len(),
{
    if lines.len() == 0 {
        None
    } else {
        match first_wireless(lines.drop_last(), listed) {
            Some(name) => Some(name),
            None => wireless_of_line(lines.last(), listed),
        }
    }
}

/// The last wireless interface in the lines that is up.
pub open spec fn last_up_wireless(lines: Seq<Seq<char>>, listed: Seq<Seq<char>>) -> Option<
    Seq<char>,
>
    decreases lines.len(),
{
    if lines.len() == 0 {
        None
    } else {
        match wireless_of_line(lines.last(), listed) {
            Some(name) if line_is_up(lines.last()) => Some(name),
            _ => last_up_wireless(lines.drop_last(), listed),
        }
    }
}

/// The interface to watch, or why there is none.
///
/// A preferred interface is the one, where it exists. Otherwise it is a wireless interface among
/// `links`, the output of `ip -br link`: the last one that is up, else the first one. Without
/// any it is the device of the default route.
pub open spec fn detected(
    preferred: Option<Seq<char>>,
    exists: bool,
    links: Result<Seq<char>, Seq<char>>,
    listed: Seq<Seq<char>>,
    route: Option<Seq<char>>,
) -> Result<Seq<char>, Seq<char>> {
    match preferred {
        Some(name) => if exists {
            Ok(name)
        } else {
            Err("interface '"@ + name + "' not found"@)
        },
        None => match links {
            Err(e) => Err(e),
            Ok(out) => {
                let lines = text::lines(out);
                let dev = match route {
                    Some(r) => word_behind(text::words(r), "dev"@),
                    None => None,
                };
                if last_up_wireless(lines, listed) is Some {
                    Ok(last_up_wireless(lines, listed).unwrap())
                } else if first_wireless(lines, listed) is Some {
                    Ok(first_wireless(lines, listed).unwrap())
                } else if dev is Some {
                    Ok(dev.unwrap())
                } else {
                    Err("no wireless interface found; pass --interface"@)
                }
            },
        },
    }
}

/// The texts of a result.
pub open spec fn result_text(r: Result<String, String>) -> Result<Seq<char>, Seq<char>> {
    match r {
        Ok(s) => Ok(s@),
        Err(e) => Err(e@),
    }
}

/// The place of the interface `name` in the file system.
pub fn iface_path_of(name: &str) -> (r: String)
    ensures
        r@ == iface_path(name@),
{
    text::join2("/sys/class/net/", name)
}

fn line_name_of(line: &str) -> (r: Option<String>)
    ensures
        text::opt_text(r) == line_name(line@),
{
    let parts: Vec<String> = text::words_of(line);
    assert(text::texts(parts@).len() == parts@.len());
    if parts.len() < 2 {
        return None;
    }
    assert(text::texts(parts@)[0] == parts@[0]@);
    proof {
        reveal_strlit("@");
    }
    let pieces: Vec<String> = text::split_str(parts[0].as_str(), "@");
    assert(text::texts(pieces@).len() > 0);
    assert(text::texts(pieces@)[0] == pieces@[0]@);
    Some(pieces[0].clone())
}

fn line_is_up_of(line: &str) -> (r: bool)
    requires
        line_name(line@) is Some,
    ensures
        r == line_is_up(line@),
{
    let parts: Vec<String> = text::words_of(line);
    assert(text::texts(parts@)[1] == parts@[1]@);
    text::contains_str(parts[1].as_str(), "UP")
}

/// Whether the list holds the text.
pub fn list_contains(list: &Vec<String>, s: &str) -> (r: bool)
    ensures
        r == text::texts(list@).contains(s@),
{
    let mut i: usize = 0;
    while i < list.len()
        invariant
            i <= list@.len(),
            forall|k: int| 0 <= k < i ==> (#[trigger] list@[k])@ != s@,
        decreases list@.len() - i,
    {
        if text::same_text(list[i].as_str(), s) {
            assert(text::texts(list@)[i as int] == s@);
            return true;
        }
        i = i + 1;
    }
    assert forall|k: int| 0 <= k < text::texts(list@).len() implies text::texts(list@)[k]
        != s@ by {
        assert(list@[k]@ != s@);
    }
    false
}

/// Whether the interface `name` is wireless; `listed` holds those that have a directory for it.
pub fn is_wireless(name: &str, listed: &Vec<String>) -> (r: bool)
    ensures
        r == wireless_name(name@, text::texts(listed@)),
{
    list_contains(listed, name) || text::starts_with_str(name, "wlan") || text::starts_with_str(
        name,
        "wlp",
    )
}

/// The interfaces that `ip -br link` names, in order.
pub open spec fn line_names(lines: Seq<Seq<char>>) -> Seq<Seq<char>>
    decreases lines.len(),
{
    if lines.len() == 0 {
        seq![]
    } else {
        match line_name(lines.last()) {
            Some(name) => line_names(lines.drop_last()).push(name),
            None => line_names(lines.drop_last()),
        }
    }
}

/// The interfaces that `ip -br link` names: those to look up before [`detect_interface`] decides.
pub fn interface_names(out: &str) -> (names: Vec<String>)
    ensures
        text::texts(names@) == line_names(text::lines(out@)),
{
    let lines: Vec<String> = text::lines_of(out);
    let ghost model = text::texts(lines@);
    let mut names: Vec<String> = Vec::new();
    let mut i: usize = 0;
    assert(model.take(0) =~= seq![]);
    assert(text::texts(names@) =~= seq![]);
    while i < lines.len()
        invariant
            i <= lines@.len(),
            model == text::texts(lines@),
            text::texts(names@) == line_names(model.take(i as int)),
        decreases lines@.len() - i,
    {
        assert(model[i as int] == lines@[i as int]@);
        assert(model.take(i + 1).drop_last() =~= model.take(i as int));
        if let Some(name) = line_name_of(lines[i].as_str()) {
            proof {
                text::lemma_texts_push(names@, name);
            }
            names.push(name);
        }
        i = i + 1;
    }
    assert(model.take(i as int) =~= model);
    names
}

/// The interface to watch, or why there is none.
///
/// `exists` says whether the preferred interface exists, `links` is the output of `ip -br link` or
/// why it failed, `listed` are the interfaces that have a directory for wireless settings, and
/// `route` is the output of `ip route show default` where it succeeded.
pub fn detect_interface(
    preferred: Option<&str>,
    exists: bool,
    links: &Result<String, String>,
    listed: &Vec<String>,
    route: &Option<String>,
) -> (r: Result<String, String>)
    ensures
        result_text(r) == detected(
            text::opt_str(preferred),
            exists,
            result_text(*links),
            text::texts(listed@),
            text::opt_text(*route),
        ),
{
    if let Some(name) = preferred {
        if exists {
            return Ok(name.to_owned());
        }
        return Err(text::join3("interface '", name, "' not found"));
    }
    match links {
        Err(e) => Err(e.clone()),
        Ok(out) => {
            let lines: Vec<String> = text::lines_of(out.as_str());
            let ghost model = text::texts(lines@);
            let mut up: Option<String> = None;
            let mut first: Option<String> = None;
            let mut i: usize = 0;
            assert(model.take(0) =~= seq![]);
            while i < lines.len()
                invariant
                    i <= lines@.len(),
                    model == text::texts(lines@),
                    text::opt_text(up) == last_up_wireless(
                        model.take(i as int),
                        text::texts(listed@),
                    ),
                    text::opt_text(first) == first_wireless(
                        model.take(i as int),
                        text::texts(listed@),
                    ),
                decreases lines@.len() - i,
            {
                assert(model[i as int] == lines@[i as int]@);
                assert(model.take(i + 1).drop_last() =~= model.take(i as int));
                if let Some(name) = line_name_of(lines[i].as_str()) {
                    if is_wireless(name.as_str(), listed) {
                        if first.is_none() {
                            first = Some(name.clone());
                        }
                        if line_is_up_of(lines[i].as_str()) {
                            up = Some(name);
                        }
                    }
                }
                i = i + 1;
            }
            assert(model.take(i as int) =~= model);
            if let Some(name) = up {
                return Ok(name);
            }
            if let Some(name) = first {
                return Ok(name);
            }
            if let Some(r) = route {
                let words: Vec<String> = text::words_of(r.as_str());
                if let Some(dev) = word_behind_of(&words, "dev") {
                    return Ok(dev);
                }
            }
            Err("no wireless interface found; pass --interface".to_owned())
        },
    }
}

// ---------------------------------------------------------------------------------------------
// Counters

/// The place of a counter of an interface in the file system.
pub open spec fn counter_path(iface: Seq<char>, counter: Seq<char>) -> Seq<char> {
    iface_path(iface) + "/statistics/"@ + counter
}

/// The counter that a file holds, or why it cannot be had.
pub open spec fn counter(
    iface: Seq<char>,
    name: Seq<char>,
    file: Option<Seq<char>>,
) -> Result<u64, Seq<char>> {
    match file {
        None => Err("reading "@ + counter_path(iface, name)),
        Some(s) => match number::unsigned_numeral(text::trim(s), u64::MAX as nat) {
            Some(n) => Ok(n as u64),
            None => Err("parsing "@ + counter_path(iface, name)),
        },
    }
}

/// The counters that two files hold, or why they cannot be had.
pub open spec fn traffic(
    iface: Seq<char>,
    rx: Option<Seq<char>>,
    tx: Option<Seq<char>>,
) -> Result<TrafficCounters, Seq<char>> {
    match counter(iface, "rx_bytes"@, rx) {
        Err(e) => Err(e),
        Ok(rx_bytes) => match counter(iface, "tx_bytes"@, tx) {
            Err(e) => Err(e),
            Ok(tx_bytes) => Ok(TrafficCounters { rx_bytes, tx_bytes }),
        },
    }
}

/// The place of a counter of an interface in the file system.
pub fn counter_path_of(iface: &str, counter: &str) -> (r: String)
    ensures
        r@ == counter_path(iface@, counter@),
{
    text::join3(iface_path_of(iface).as_str(), "/statistics/", counter)
}

fn read_u64(iface: &str, name: &str, file: &Option<String>) -> (r: Result<u64, String>)
    ensures
        match r {
            Ok(n) => counter(iface@, name@, text::opt_text(*file)) == Ok::<u64, Seq<char>>(n),
            Err(e) => counter(iface@, name@, text::opt_text(*file)) == Err::<u64, Seq<char>>(e@),
        },
{
    match file {
        None => Err(text::join2("reading ", counter_path_of(iface, name).as_str())),
        Some(s) => match number::parse_u64(text::trim_str(s.as_str()).as_str()) {
            Some(n) => Ok(n),
            None => Err(text::join2("parsing ", counter_path_of(iface, name).as_str())),
        },
    }
}

/// The counters of the interface `iface`. `rx` and `tx` are the contents of its counter files,
/// where they could be read.
pub fn read_traffic(iface: &str, rx: &Option<String>, tx: &Option<String>) -> (r: Result<
    TrafficCounters,
    String,
>)
    ensures
        match r {
            Ok(t) => traffic(iface@, text::opt_text(*rx), text::opt_text(*tx)) == Ok::<
                TrafficCounters,
                Seq<char>,
            >(t),
            Err(e) => traffic(iface@, text::opt_text(*rx), text::opt_text(*tx)) == Err::<
                TrafficCounters,
                Seq<char>,
            >(e@),
        },
{
    match read_u64(iface, "rx_bytes", rx) {
        Err(e) => Err(e),
        Ok(rx_bytes) => match read_u64(iface, "tx_bytes", tx) {
            Err(e) => Err(e),
            Ok(tx_bytes) => Ok(TrafficCounters { rx_bytes, tx_bytes }),
        },
    }
}

// ---------------------------------------------------------------------------------------------
// The whole link

/// What the commands about one interface printed, where they succeeded.
pub struct WifiOutputs {
    /// `iw dev <iface> link`
    pub link: Option<String>,
    /// `iw dev <iface> info`
    pub info: Option<String>,
    /// `iw dev <iface> station dump`
    pub station: Option<String>,
    /// `ip -4 -o addr show dev <iface>`
    pub addr: Option<String>,
    /// `ip route show default`
    pub route: Option<String>,
}

/// The link before anything is known of it.
pub open spec fn unknown_link(iface: Seq<char>) -> model::WifiLinkView {
    model::WifiLinkView {
        iface,
        ssid: None,
        bssid: None,
        freq_mhz: None,
        channel: None,
        channel_width_mhz: None,
        signal_dbm: None,
        rx_bitrate_mbps: None,
        tx_bitrate_mbps: None,
        connected_secs: None,
        ip: None,
        gateway: None,
    }
}

/// The gateway of the interface, else any default gateway.
pub open spec fn gateway_of(route: Option<Seq<char>>, iface: Seq<char>) -> Option<IpAddr> {
    match route {
        Some(r) => match gateway_of_lines(text::lines(r), Some(iface), 0) {
            Some(gw) => Some(gw),
            None => gateway_of_lines(text::lines(r), None, 0),
        },
        None => None,
    }
}

/// The link that the outputs describe.
pub open spec fn described_link(
    iface: Seq<char>,
    outputs: WifiOutputs,
    table: Seq<model::ReadingView>,
) -> model::WifiLinkView {
    let a = unknown_link(iface);
    let b = match outputs.link {
        Some(out) => link_lines(a, text::lines(out@), table),
        None => a,
    };
    let c = match outputs.info {
        Some(out) => info_lines(b, text::lines(out@)),
        None => b,
    };
    let d = match outputs.station {
        Some(out) => station_lines(c, text::lines(out@), table),
        None => c,
    };
    model::WifiLinkView {
        ip: match outputs.addr {
            Some(out) => inet_of_lines(text::lines(out@), 0),
            None => None,
        },
        gateway: gateway_of(text::opt_text(outputs.route), iface),
        ..d
    }
}

/// The link of the interface `iface`, from what the commands about it printed.
pub fn collect_wifi(iface: &str, outputs: &WifiOutputs, table: &Vec<Reading>) -> (link: WifiLink)
    ensures
        link@ == described_link(iface@, *outputs, reading_views(table@)),
{
    let mut link: WifiLink = WifiLink {
        iface: iface.to_owned(),
        ssid: None,
        bssid: None,
        freq_mhz: None,
        channel: None,
        channel_width_mhz: None,
        signal_dbm: None,
        rx_bitrate_mbps: None,
        tx_bitrate_mbps: None,
        connected_secs: None,
        ip: None,
        gateway: None,
    };
    if let Some(out) = &outputs.link {
        parse_iw_link(out.as_str(), table, &mut link);
    }
    if let Some(out) = &outputs.info {
        parse_iw_info(out.as_str(), &mut link);
    }
    if let Some(out) = &outputs.station {
        parse_station_dump(out.as_str(), table, &mut link);
    }
    link.ip = match &outputs.addr {
        Some(out) => primary_ipv4(out.as_str()),
        None => None,
    };
    link.gateway = match &outputs.route {
        Some(out) => match default_gateway(out.as_str(), Some(iface)) {
            Some(gw) => Some(gw),
            None => default_gateway(out.as_str(), None),
        },
        None => None,
    };
    link
}

proof fn lemma_prefix(p: Seq<char>, rest: Seq<char>, other: Seq<char>)
    ensures
        text::starts_with(p + rest, p),
        (p + rest).skip(p.len() as int) == rest,
        p.len() > 0 && other.len() > 0 && p[0] != other[0] ==> !text::starts_with(p + rest, other),
{
    assert((p + rest).take(p.len() as int) =~= p);
    assert((p + rest).skip(p.len() as int) =~= rest);
    if p.len() > 0 && other.len() > 0 && p[0] != other[0] && text::starts_with(p + rest, other) {
        assert((p + rest).take(other.len() as int)[0] == p[0]);
    }
}

/// The first word of a text, where it has one.
pub open spec fn leading_word(s: Seq<char>) -> Option<Seq<char>> {
    if text::words(s).len() > 0 {
        Some(text::words(s)[0])
    } else {
        None
    }
}

/// The table gives `r` as the first reading of the token.
pub open spec fn reads(
    table: Seq<model::ReadingView>,
    token: Seq<char>,
    r: model::ReadingView,
) -> bool {
    exists|k: int|
        0 <= k < table.len() && #[trigger] table[k] == r && r.token == token && forall|j: int|
            0 <= j < k ==> (#[trigger] table[j]).token != token
}

proof fn lemma_reads(
    table: Seq<model::ReadingView>,
    token: Seq<char>,
    r: model::ReadingView,
    k: int,
    from: int,
)
    requires
        0 <= from <= k < table.len(),
        table[k] == r,
        r.token == token,
        forall|j: int| 0 <= j < k ==> (#[trigger] table[j]).token != token,
    ensures
        reading_from(table, token, from) == Some(r),
    decreases k - from,
{
    if from < k {
        assert(table[from].token != token);
        lemma_reads(table, token, r, k, from + 1);
    }
}

proof fn lemma_first_reading(table: Seq<model::ReadingView>, s: Seq<char>, r: model::ReadingView)
    requires
        leading_word(s) matches Some(w) && reads(table, w, r),
    ensures
        first_reading(table, s) == Some(r),
{
    let w = leading_word(s).unwrap();
    let k = choose|k: int|
        0 <= k < table.len() && #[trigger] table[k] == r && r.token == w && forall|j: int|
            0 <= j < k ==> (#[trigger] table[j]).token != w;
    lemma_reads(table, w, r, k, 0);
}

/// Each line of `iw … link` says one thing, behind its own words, and leaves the rest as it was.
pub proof fn law_link_line(
    link: model::WifiLinkView,
    line: Seq<char>,
    rest: Seq<char>,
    table: Seq<model::ReadingView>,
)
    ensures
        text::trim(line) == "Connected to "@ + rest ==> link_line(link, line, table) == (
        model::WifiLinkView {
            bssid: match leading_word(rest) {
                Some(w) => Some(w),
                None => link.bssid,
            },
            ..link
        }),
        text::trim(line) == "SSID: "@ + rest ==> link_line(link, line, table) == (
        model::WifiLinkView { ssid: Some(rest), ..link }),
        text::trim(line) == "signal: "@ + rest ==> link_line(link, line, table) == (
        model::WifiLinkView {
            signal_dbm: match leading_word(rest) {
                Some(w) => match number::signed_numeral(w) {
                    Some(n) => Some(n as i32),
                    None => link.signal_dbm,
                },
                None => link.signal_dbm,
            },
            ..link
        }),
        text::trim(line) == "freq: "@ + rest ==> (leading_word(rest) matches Some(w) ==> forall|
            r: model::ReadingView,
        | #[trigger]
            reads(table, w, r) ==> link_line(link, line, table) == (model::WifiLinkView {
                freq_mhz: if r.positive {
                    Some(r.nearest)
                } else {
                    link.freq_mhz
                },
                ..link
            })),
        text::trim(line) == "rx bitrate: "@ + rest ==> (leading_word(rest) matches Some(w)
            ==> forall|r: model::ReadingView| #[trigger]
            reads(table, w, r) ==> link_line(link, line, table) == (model::WifiLinkView {
                rx_bitrate_mbps: Some(r),
                ..link
            })),
        text::trim(line) == "tx bitrate: "@ + rest ==> (leading_word(rest) matches Some(w)
            ==> forall|r: model::ReadingView| #[trigger]
            reads(table, w, r) ==> link_line(link, line, table) == (model::WifiLinkView {
                tx_bitrate_mbps: Some(r),
                ..link
            })),
{
    reveal_strlit("Connected to ");
    reveal_strlit("SSID: ");
    reveal_strlit("signal: ");
    reveal_strlit("freq: ");
    reveal_strlit("rx bitrate: ");
    reveal_strlit("tx bitrate: ");
    let ps = seq![
        "Connected to "@,
        "SSID: "@,
        "freq: "@,
        "signal: "@,
        "rx bitrate: "@,
        "tx bitrate: "@,
    ];
    assert forall|a: int, b: int| 0 <= a < 6 && 0 <= b < 6 && a != b implies !text::starts_with(
        #[trigger] ps[a] + rest,
        #[trigger] ps[b],
    ) by {
        lemma_prefix(ps[a], rest, ps[b]);
    }
    lemma_prefix(ps[0], rest, ps[1]);
    lemma_prefix(ps[1], rest, ps[0]);
    lemma_prefix(ps[2], rest, ps[0]);
    lemma_prefix(ps[3], rest, ps[0]);
    lemma_prefix(ps[4], rest, ps[0]);
    lemma_prefix(ps[5], rest, ps[0]);
    if leading_word(rest) is Some {
        assert forall|r: model::ReadingView| #[trigger]
            reads(table, leading_word(rest).unwrap(), r) implies first_reading(table, rest) == Some(
            r,
        ) by {
            lemma_first_reading(table, rest, r);
        }
    }
    assert(ps[0] + rest == "Connected to "@ + rest);
    assert(ps[1] + rest == "SSID: "@ + rest);
    assert(ps[2] + rest == "freq: "@ + rest);
    assert(ps[3] + rest == "signal: "@ + rest);
    assert(ps[4] + rest == "rx bitrate: "@ + rest);
    assert(ps[5] + rest == "tx bitrate: "@ + rest);
}

/// Each line of `iw … station dump` says one thing, behind its own words, and leaves the rest as it
/// was.
pub proof fn law_station_line(
    link: model::WifiLinkView,
    line: Seq<char>,
    rest: Seq<char>,
    table: Seq<model::ReadingView>,
)
    ensures
        text::trim(line) == "connected time:"@ + rest ==> station_line(link, line, table) == (
        model::WifiLinkView {
            connected_secs: match leading_word(rest) {
                Some(w) => match number::unsigned_numeral(w, u64::MAX as nat) {
                    Some(n) => Some(n as u64),
                    None => link.connected_secs,
                },
                None => link.connected_secs,
            },
            ..link
        }),
        text::trim(line) == "signal:"@ + rest ==> forall|k: int|
            0 <= k < text::words(rest).len() && number::signed_numeral(
                #[trigger] text::words(rest)[k],
            ) is Some && (forall|j: int|
                0 <= j < k ==> number::signed_numeral(#[trigger] text::words(rest)[j]) is None)
                ==> station_line(link, line, table) == (model::WifiLinkView {
                signal_dbm: Some(number::signed_numeral(text::words(rest)[k]).unwrap() as i32),
                ..link
            }),
        text::trim(line) == "rx bitrate:"@ + rest ==> (leading_word(rest) matches Some(w)
            ==> forall|r: model::ReadingView| #[trigger]
            reads(table, w, r) ==> station_line(link, line, table) == (model::WifiLinkView {
                rx_bitrate_mbps: Some(r),
                ..link
            })),
        text::trim(line) == "tx bitrate:"@ + rest ==> (leading_word(rest) matches Some(w)
            ==> forall|r: model::ReadingView| #[trigger]
            reads(table, w, r) ==> station_line(link, line, table) == (model::WifiLinkView {
                tx_bitrate_mbps: Some(r),
                ..link
            })),
{
    reveal_strlit("connected time:");
    reveal_strlit("signal:");
    reveal_strlit("rx bitrate:");
    reveal_strlit("tx bitrate:");
    let ps = seq!["signal:"@, "tx bitrate:"@, "rx bitrate:"@, "connected time:"@];
    assert forall|a: int, b: int| 0 <= a < 4 && 0 <= b < 4 && a != b implies !text::starts_with(
        #[trigger] ps[a] + rest,
        #[trigger] ps[b],
    ) by {
        lemma_prefix(ps[a], rest, ps[b]);
    }
    lemma_prefix(ps[0], rest, ps[1]);
    lemma_prefix(ps[1], rest, ps[0]);
    lemma_prefix(ps[2], rest, ps[0]);
    lemma_prefix(ps[3], rest, ps[0]);
    if leading_word(rest) is Some {
        assert forall|r: model::ReadingView| #[trigger]
            reads(table, leading_word(rest).unwrap(), r) implies first_reading(table, rest) == Some(
            r,
        ) by {
            lemma_first_reading(table, rest, r);
        }
    }
    assert forall|k: int|
        0 <= k < text::words(rest).len() && number::signed_numeral(
            #[trigger] text::words(rest)[k],
        ) is Some && (forall|j: int|
            0 <= j < k ==> number::signed_numeral(#[trigger] text::words(rest)[j]) is None) implies first_number(
        text::words(rest),
        0,
    ) == number::signed_numeral(text::words(rest)[k]) by {
        lemma_first_number(text::words(rest), 0, k);
    }
    assert(ps[0] + rest == "signal:"@ + rest);
    assert(ps[1] + rest == "tx bitrate:"@ + rest);
    assert(ps[2] + rest == "rx bitrate:"@ + rest);
    assert(ps[3] + rest == "connected time:"@ + rest);
}

proof fn lemma_first_number(words: Seq<Seq<char>>, from: int, k: int)
    requires
        0 <= from <= k < words.len(),
        number::signed_numeral(words[k]) is Some,
        forall|j: int| 0 <= j < k ==> number::signed_numeral(#[trigger] words[j]) is None,
    ensures
        first_number(words, from) == number::signed_numeral(words[k]),
    decreases k - from,
{
    if from < k {
        assert(number::signed_numeral(words[from]) is None);
        lemma_first_number(words, from + 1, k);
    }
}

proof fn lemma_word_at(words: Seq<Seq<char>>, word: Seq<char>, from: int, k: int)
    requires
        0 <= from <= k < words.len(),
        words[k] == word,
        forall|j: int| 0 <= j < k ==> (#[trigger] words[j]) != word,
    ensures
        word_at(words, word, from) == Some(k),
    decreases k - from,
{
    if from < k {
        assert(words[from] != word);
        lemma_word_at(words, word, from + 1, k);
    }
}

proof fn lemma_word_nowhere(words: Seq<Seq<char>>, word: Seq<char>, from: int)
    requires
        0 <= from,
        forall|j: int| 0 <= j < words.len() ==> (#[trigger] words[j]) != word,
    ensures
        word_at(words, word, from) is None,
    decreases words.len() - from,
{
    if from < words.len() {
        assert(words[from] != word);
        lemma_word_nowhere(words, word, from + 1);
    }
}

/// What stands behind the first `word` of a line.
pub proof fn law_word_behind(words: Seq<Seq<char>>, word: Seq<char>, k: int)
    ensures
        0 <= k && k + 1 < words.len() && words[k] == word && (forall|j: int|
            0 <= j < k ==> (#[trigger] words[j]) != word) ==> word_behind(words, word) == Some(
            words[k + 1],
        ),
        (forall|j: int| 0 <= j < words.len() ==> (#[trigger] words[j]) != word) ==> word_behind(
            words,
            word,
        ) is None,
{
    if 0 <= k && k + 1 < words.len() && words[k] == word && (forall|j: int|
        0 <= j < k ==> (#[trigger] words[j]) != word) {
        lemma_word_at(words, word, 0, k);
    }
    if forall|j: int| 0 <= j < words.len() ==> (#[trigger] words[j]) != word {
        lemma_word_nowhere(words, word, 0);
    }
}

/// `iw … info` names the network where that is not known yet; the channel and its width behind their
/// words; and the frequency in brackets where that is not known yet.
pub proof fn law_info_line(link: model::WifiLinkView, line: Seq<char>, rest: Seq<char>, k: int)
    ensures
        text::trim(line) == "ssid "@ + rest ==> info_line(link, line) == (model::WifiLinkView {
            ssid: if link.ssid is Some {
                link.ssid
            } else {
                Some(rest)
            },
            ..link
        }),
        text::trim(line) == "channel "@ + rest ==> ({
            let t = text::trim(line);
            let w = text::words(t);
            let new = info_line(link, line);
            &&& w.len() >= 2 && number::unsigned_numeral(w[1], u32::MAX as nat) is Some
                ==> new.channel == Some(
                number::unsigned_numeral(w[1], u32::MAX as nat).unwrap() as u32,
            )
            &&& 0 <= k && k + 1 < w.len() && w[k] == "width:"@ && (forall|j: int|
                0 <= j < k ==> (#[trigger] w[j]) != "width:"@) && number::unsigned_numeral(
                w[k + 1],
                u32::MAX as nat,
            ) is Some ==> new.channel_width_mhz == Some(
                number::unsigned_numeral(w[k + 1], u32::MAX as nat).unwrap() as u32,
            )
            &&& link.freq_mhz is Some ==> new.freq_mhz == link.freq_mhz
            &&& link.freq_mhz is None && text::find(t, "("@) is Some && leading_word(
                t.skip(text::find(t, "("@).unwrap() + 1),
            ) is Some && number::unsigned_numeral(
                leading_word(t.skip(text::find(t, "("@).unwrap() + 1)).unwrap(),
                u32::MAX as nat,
            ) is Some ==> new.freq_mhz == Some(
                number::unsigned_numeral(
                    leading_word(t.skip(text::find(t, "("@).unwrap() + 1)).unwrap(),
                    u32::MAX as nat,
                ).unwrap() as u32,
            )
            &&& new == (model::WifiLinkView {
                channel: new.channel,
                channel_width_mhz: new.channel_width_mhz,
                freq_mhz: new.freq_mhz,
                ..link
            })
        }),
{
    reveal_strlit("ssid ");
    reveal_strlit("channel ");
    lemma_prefix("ssid "@, rest, "channel "@);
    lemma_prefix("channel "@, rest, "ssid "@);
    law_word_behind(text::words(text::trim(line)), "width:"@, k);
}

/// The outputs are read line by line.
pub proof fn law_line_by_line(
    link: model::WifiLinkView,
    a: Seq<Seq<char>>,
    b: Seq<Seq<char>>,
    table: Seq<model::ReadingView>,
)
    ensures
        link_lines(link, a + b, table) == link_lines(link_lines(link, a, table), b, table),
        info_lines(link, a + b) == info_lines(info_lines(link, a), b),
        station_lines(link, a + b, table) == station_lines(
            station_lines(link, a, table),
            b,
            table,
        ),
    decreases b.len(),
{
    if b.len() > 0 {
        law_line_by_line(link, a, b.drop_last(), table);
        assert((a + b).drop_last() =~= a + b.drop_last());
        assert((a + b).last() == b.last());
    } else {
        assert(a + b =~= a);
    }
}

proof fn lemma_lines_keep_addresses(
    link: model::WifiLinkView,
    lines: Seq<Seq<char>>,
    table: Seq<model::ReadingView>,
    ip: Option<IpAddr>,
    gateway: Option<IpAddr>,
)
    ensures
        station_lines(model::WifiLinkView { ip, gateway, ..link }, lines, table) == (
        model::WifiLinkView { ip, gateway, ..station_lines(link, lines, table) }),
        link_lines(link, lines, table).iface == link.iface,
        info_lines(link, lines).iface == link.iface,
        station_lines(link, lines, table).iface == link.iface,
    decreases lines.len(),
{
    if lines.len() > 0 {
        lemma_lines_keep_addresses(link, lines.drop_last(), table, ip, gateway);
    }
}

/// The description of a link names its interface, and is built up: what `iw … link` says comes first,
/// `iw … info` adds to it, and `iw … station dump` has the last word.
pub proof fn law_described_link(
    iface: Seq<char>,
    o: WifiOutputs,
    bare: WifiOutputs,
    table: Seq<model::ReadingView>,
)
    ensures
        described_link(iface, o, table).iface == iface,
        bare == (WifiOutputs { station: None, ..o }) ==> (o.station matches Some(out)
            ==> described_link(iface, o, table) == station_lines(
            described_link(iface, bare, table),
            text::lines(out@),
            table,
        )),
        o.link is None && o.info is None && o.station is None ==> ({
            let d = described_link(iface, o, table);
            &&& d.ssid is None && d.bssid is None && d.freq_mhz is None && d.channel is None
            &&& d.channel_width_mhz is None && d.signal_dbm is None && d.connected_secs is None
            &&& d.rx_bitrate_mbps is None && d.tx_bitrate_mbps is None
        }),
        o.station is None && (o.link matches Some(l) ==> link_lines(
            unknown_link(iface),
            text::lines(l@),
            table,
        ).ssid is Some) && o.link is Some ==> described_link(iface, o, table).ssid == link_lines(
            unknown_link(iface),
            text::lines(o.link.unwrap()@),
            table,
        ).ssid,
        o.addr is None ==> described_link(iface, o, table).ip is None,
        o.route is None ==> described_link(iface, o, table).gateway is None,
{
    let a = unknown_link(iface);
    let b = match o.link {
        Some(out) => link_lines(a, text::lines(out@), table),
        None => a,
    };
    let c = match o.info {
        Some(out) => info_lines(b, text::lines(out@)),
        None => b,
    };
    if let Some(out) = o.link {
        lemma_lines_keep_addresses(a, text::lines(out@), table, None, None);
    }
    if let Some(out) = o.info {
        lemma_lines_keep_addresses(b, text::lines(out@), table, None, None);
        lemma_info_keeps_ssid(b, text::lines(out@));
    }
    if let Some(out) = o.station {
        let whole = described_link(iface, o, table);
        lemma_lines_keep_addresses(c, text::lines(out@), table, whole.ip, whole.gateway);
    }
}

proof fn lemma_info_keeps_ssid(link: model::WifiLinkView, lines: Seq<Seq<char>>)
    ensures
        link.ssid is Some ==> info_lines(link, lines).ssid == link.ssid,
    decreases lines.len(),
{
    if lines.len() > 0 {
        lemma_info_keeps_ssid(link, lines.drop_last());
    }
}

/// The line has `word` directly before `next`, and no earlier `word`.
pub open spec fn says(line: Seq<char>, word: Seq<char>, next: Seq<char>) -> bool {
    exists|k: int|
        0 <= k && k + 1 < text::words(line).len() && #[trigger] text::words(line)[k] == word
            && text::words(line)[k + 1] == next && forall|j: int|
            0 <= j < k ==> (#[trigger] text::words(line)[j]) != word
}

proof fn lemma_says(line: Seq<char>, word: Seq<char>, next: Seq<char>)
    ensures
        says(line, word, next) <==> word_behind(text::words(line), word) == Some(next),
{
    let w = text::words(line);
    if says(line, word, next) {
        let k = choose|k: int|
            0 <= k && k + 1 < w.len() && #[trigger] w[k] == word && w[k + 1] == next && forall|
                j: int,
            |
                0 <= j < k ==> (#[trigger] w[j]) != word;
        law_word_behind(w, word, k);
    }
    if word_behind(w, word) == Some(next) {
        lemma_word_at_is(w, word, 0);
        let k = word_at(w, word, 0).unwrap();
        assert(w[k] == word && w[k + 1] == next);
    }
}

proof fn lemma_word_at_is(words: Seq<Seq<char>>, word: Seq<char>, from: int)
    requires
        0 <= from,
    ensures
        word_at(words, word, from) matches Some(k) ==> from <= k < words.len() && words[k] == word
            && forall|j: int| from <= j < k ==> (#[trigger] words[j]) != word,
    decreases words.len() - from,
{
    if from < words.len() && words[from] != word {
        lemma_word_at_is(words, word, from + 1);
    }
}

/// The address of this machine is the one behind `inet`, without the width of its network, on the
/// first line that has one.
pub proof fn law_primary_address(lines: Seq<Seq<char>>, i: int, cidr: Seq<char>, from: int)
    requires
        0 <= from <= i < lines.len(),
        says(lines[i], "inet"@, cidr),
        forall|j: int, other: Seq<char>|
            0 <= j < i ==> !says(#[trigger] lines[j], "inet"@, #[trigger] other.take(other.len() as int)),
    ensures
        inet_of_lines(lines, from) == addr::ip(text::split_on(cidr, "/"@)[0]),
    decreases i - from,
{
    if from < i {
        if let Some(c) = word_behind(text::words(lines[from]), "inet"@) {
            lemma_says(lines[from], "inet"@, c);
            assert(c.take(c.len() as int) =~= c);
            assert(false);
        }
        law_primary_address(lines, i, cidr, from + 1);
    } else {
        lemma_says(lines[i], "inet"@, cidr);
    }
}

/// The gateway is the one behind `via` on the first default route that has one: of those over the
/// interface, where one is asked for.
pub proof fn law_gateway(
    lines: Seq<Seq<char>>,
    iface: Option<Seq<char>>,
    i: int,
    gw: Seq<char>,
    from: int,
)
    requires
        0 <= from <= i < lines.len(),
        text::contains(lines[i], "default"@),
        iface matches Some(name) ==> says(lines[i], "dev"@, name),
        says(lines[i], "via"@, gw),
        forall|j: int|
            0 <= j < i ==> !text::contains(#[trigger] lines[j], "default"@) || word_behind(
                text::words(lines[j]),
                "via"@,
            ) is None || (iface matches Some(name) && !says(lines[j], "dev"@, name)),
    ensures
        gateway_of_lines(lines, iface, from) == addr::ip(gw),
    decreases i - from,
{
    lemma_says(lines[i], "via"@, gw);
    if let Some(name) = iface {
        lemma_says(lines[i], "dev"@, name);
        lemma_says(lines[from], "dev"@, name);
    }
    if from < i {
        assert(!text::contains(lines[from], "default"@) || word_behind(
            text::words(lines[from]),
            "via"@,
        ) is None || (iface matches Some(name) && !says(lines[from], "dev"@, name)));
        law_gateway(lines, iface, i, gw, from + 1);
    }
}

/// A gateway over the interface comes before one over another interface, and without routes there
/// is none.
pub proof fn law_gateway_of(route: Seq<char>, iface: Seq<char>)
    ensures
        gateway_of(None, iface) is None,
        gateway_of_lines(text::lines(route), Some(iface), 0) matches Some(gw) ==> gateway_of(
            Some(route),
            iface,
        ) == Some(gw),
        gateway_of_lines(text::lines(route), Some(iface), 0) is None ==> gateway_of(
            Some(route),
            iface,
        ) == gateway_of_lines(text::lines(route), None, 0),
{
}

/// The line is that of a wireless interface `name`: it begins with the name, up to an `@`, has a
/// state behind it, and the interface is listed as wireless or named like one.
pub open spec fn is_wireless_line(line: Seq<char>, listed: Seq<Seq<char>>, name: Seq<char>) -> bool {
    &&& text::words(line).len() >= 2
    &&& name == text::split_on(text::words(line)[0], "@"@)[0]
    &&& listed.contains(name) || text::starts_with(name, "wlan"@) || text::starts_with(name, "wlp"@)
}

proof fn lemma_wireless_line(line: Seq<char>, listed: Seq<Seq<char>>, name: Seq<char>)
    ensures
        is_wireless_line(line, listed, name) <==> wireless_of_line(line, listed) == Some(name),
{
}

proof fn lemma_last_up(lines: Seq<Seq<char>>, listed: Seq<Seq<char>>, i: int, name: Seq<char>)
    requires
        0 <= i < lines.len(),
        is_wireless_line(lines[i], listed, name),
        text::contains(text::words(lines[i])[1], "UP"@),
        forall|j: int, other: Seq<char>|
            i < j < lines.len() && #[trigger] is_wireless_line(lines[j], listed, other)
                ==> !text::contains(text::words(lines[j])[1], "UP"@),
    ensures
        last_up_wireless(lines, listed) == Some(name),
    decreases lines.len(),
{
    lemma_wireless_line(lines[i], listed, name);
    if i < lines.len() - 1 {
        let last = lines.last();
        if let Some(other) = wireless_of_line(last, listed) {
            lemma_wireless_line(last, listed, other);
            assert(is_wireless_line(lines[lines.len() - 1], listed, other));
        }
        let before = lines.drop_last();
        assert forall|j: int, other: Seq<char>|
            i < j < before.len() && #[trigger] is_wireless_line(
                before[j],
                listed,
                other,
            ) implies !text::contains(text::words(before[j])[1], "UP"@) by {
            assert(is_wireless_line(lines[j], listed, other));
        }
        lemma_last_up(before, listed, i, name);
    }
}

proof fn lemma_none_up(lines: Seq<Seq<char>>, listed: Seq<Seq<char>>)
    requires
        forall|j: int, other: Seq<char>|
            0 <= j < lines.len() && #[trigger] is_wireless_line(lines[j], listed, other)
                ==> !text::contains(text::words(lines[j])[1], "UP"@),
    ensures
        last_up_wireless(lines, listed) is None,
    decreases lines.len(),
{
    if lines.len() > 0 {
        let last = lines.last();
        if let Some(other) = wireless_of_line(last, listed) {
            lemma_wireless_line(last, listed, other);
            assert(is_wireless_line(lines[lines.len() - 1], listed, other));
        }
        let before = lines.drop_last();
        assert forall|j: int, other: Seq<char>|
            0 <= j < before.len() && #[trigger] is_wireless_line(
                before[j],
                listed,
                other,
            ) implies !text::contains(text::words(before[j])[1], "UP"@) by {
            assert(is_wireless_line(lines[j], listed, other));
        }
        lemma_none_up(before, listed);
    }
}

proof fn lemma_first_wireless(lines: Seq<Seq<char>>, listed: Seq<Seq<char>>, i: int, name: Seq<char>)
    requires
        0 <= i < lines.len(),
        is_wireless_line(lines[i], listed, name),
        forall|j: int, other: Seq<char>|
            0 <= j < i ==> !#[trigger] is_wireless_line(lines[j], listed, other),
    ensures
        first_wireless(lines, listed) == Some(name),
    decreases lines.len(),
{
    let before = lines.drop_last();
    if i < before.len() {
        assert forall|j: int, other: Seq<char>| 0 <= j < i implies !#[trigger] is_wireless_line(
            before[j],
            listed,
            other,
        ) by {
            assert(!is_wireless_line(lines[j], listed, other));
        }
        lemma_first_wireless(before, listed, i, name);
    } else {
        assert forall|j: int, other: Seq<char>|
            0 <= j < before.len() implies !#[trigger] is_wireless_line(before[j], listed, other) by {
            assert(!is_wireless_line(lines[j], listed, other));
        }
        lemma_no_wireless(before, listed);
        lemma_wireless_line(lines[i], listed, name);
    }
}

proof fn lemma_no_wireless(lines: Seq<Seq<char>>, listed: Seq<Seq<char>>)
    requires
        forall|j: int, other: Seq<char>|
            0 <= j < lines.len() ==> !#[trigger] is_wireless_line(lines[j], listed, other),
    ensures
        first_wireless(lines, listed) is None,
    decreases lines.len(),
{
    if lines.len() > 0 {
        let last = lines.last();
        if let Some(other) = wireless_of_line(last, listed) {
            lemma_wireless_line(last, listed, other);
            assert(is_wireless_line(lines[lines.len() - 1], listed, other));
        }
        let before = lines.drop_last();
        assert forall|j: int, other: Seq<char>|
            0 <= j < before.len() implies !#[trigger] is_wireless_line(before[j], listed, other) by {
            assert(!is_wireless_line(lines[j], listed, other));
        }
        lemma_no_wireless(before, listed);
    }
}

/// An interface that is asked for is used where it exists, and else refused by its name.
pub proof fn law_preferred_interface(
    name: Seq<char>,
    exists: bool,
    links: Result<Seq<char>, Seq<char>>,
    listed: Seq<Seq<char>>,
    route: Option<Seq<char>>,
)
    ensures
        exists ==> detected(Some(name), exists, links, listed, route) == Ok::<Seq<char>, Seq<char>>(
            name,
        ),
        !exists ==> detected(Some(name), exists, links, listed, route) == Err::<
            Seq<char>,
            Seq<char>,
        >("interface '"@ + name + "' not found"@),
{
}

/// Without one that is asked for, the last wireless interface that is up is used; without any that
/// is up the first wireless one.
pub proof fn law_wireless_interface(
    exists: bool,
    out: Seq<char>,
    listed: Seq<Seq<char>>,
    route: Option<Seq<char>>,
    i: int,
    name: Seq<char>,
)
    requires
        0 <= i < text::lines(out).len(),
        is_wireless_line(text::lines(out)[i], listed, name),
    ensures
        text::contains(text::words(text::lines(out)[i])[1], "UP"@) && (forall|
            j: int,
            other: Seq<char>,
        |
            i < j < text::lines(out).len() && #[trigger] is_wireless_line(
                text::lines(out)[j],
                listed,
                other,
            ) ==> !text::contains(text::words(text::lines(out)[j])[1], "UP"@)) ==> detected(
            None,
            exists,
            Ok(out),
            listed,
            route,
        ) == Ok::<Seq<char>, Seq<char>>(name),
        (forall|j: int, other: Seq<char>|
            0 <= j < text::lines(out).len() && #[trigger] is_wireless_line(
                text::lines(out)[j],
                listed,
                other,
            ) ==> !text::contains(text::words(text::lines(out)[j])[1], "UP"@)) && (forall|
            j: int,
            other: Seq<char>,
        |
            0 <= j < i ==> !#[trigger] is_wireless_line(text::lines(out)[j], listed, other))
            ==> detected(None, exists, Ok(out), listed, route) == Ok::<Seq<char>, Seq<char>>(name),
{
    let lines = text::lines(out);
    if text::contains(text::words(lines[i])[1], "UP"@) && (forall|j: int, other: Seq<char>|
        i < j < lines.len() && #[trigger] is_wireless_line(lines[j], listed, other)
            ==> !text::contains(text::words(lines[j])[1], "UP"@)) {
        lemma_last_up(lines, listed, i, name);
    }
    if (forall|j: int, other: Seq<char>|
        0 <= j < lines.len() && #[trigger] is_wireless_line(lines[j], listed, other)
            ==> !text::contains(text::words(lines[j])[1], "UP"@)) && (forall|
        j: int,
        other: Seq<char>,
    |
        0 <= j < i ==> !#[trigger] is_wireless_line(lines[j], listed, other)) {
        lemma_none_up(lines, listed);
        lemma_first_wireless(lines, listed, i, name);
    }
}

/// Without any wireless interface that of the default route is used; without that there is none, and
/// an interface list that cannot be had is an error of its own.
pub proof fn law_no_wireless_interface(
    exists: bool,
    out: Seq<char>,
    listed: Seq<Seq<char>>,
    route: Option<Seq<char>>,
    dev: Seq<char>,
)
    ensures
        detected(None, exists, Err(out), listed, route) == Err::<Seq<char>, Seq<char>>(out),
        (forall|j: int, other: Seq<char>|
            0 <= j < text::lines(out).len() ==> !#[trigger] is_wireless_line(
                text::lines(out)[j],
                listed,
                other,
            )) ==> {
            &&& route matches Some(r) ==> (says(r, "dev"@, dev) ==> detected(
                None,
                exists,
                Ok(out),
                listed,
                route,
            ) == Ok::<Seq<char>, Seq<char>>(dev))
            &&& route is None ==> detected(None, exists, Ok(out), listed, route) == Err::<
                Seq<char>,
                Seq<char>,
            >("no wireless interface found; pass --interface"@)
        },
{
    let lines = text::lines(out);
    if forall|j: int, other: Seq<char>|
        0 <= j < lines.len() ==> !#[trigger] is_wireless_line(lines[j], listed, other) {
        lemma_none_up(lines, listed);
        lemma_no_wireless(lines, listed);
        if let Some(r) = route {
            lemma_says(r, "dev"@, dev);
        }
    }
}

/// The counters are the numbers in their two files, received before sent; the first file that is
/// missing or holds no number is named.
pub proof fn law_traffic(iface: Seq<char>, rx: Option<Seq<char>>, tx: Option<Seq<char>>)
    ensures
        rx is None ==> traffic(iface, rx, tx) == Err::<TrafficCounters, Seq<char>>(
            "reading "@ + ("/sys/class/net/"@ + iface + "/statistics/"@ + "rx_bytes"@),
        ),
        rx matches Some(a) ==> {
            let n = number::unsigned_numeral(text::trim(a), u64::MAX as nat);
            &&& n is None ==> traffic(iface, rx, tx) == Err::<TrafficCounters, Seq<char>>(
                "parsing "@ + ("/sys/class/net/"@ + iface + "/statistics/"@ + "rx_bytes"@),
            )
            &&& n is Some && tx is None ==> traffic(iface, rx, tx) == Err::<
                TrafficCounters,
                Seq<char>,
            >("reading "@ + ("/sys/class/net/"@ + iface + "/statistics/"@ + "tx_bytes"@))
            &&& n matches Some(r) ==> (tx matches Some(b) ==> (number::unsigned_numeral(
                text::trim(b),
                u64::MAX as nat,
            ) matches Some(t) ==> (traffic(iface, rx, tx) matches Ok(c) && c.rx_bytes == r
                && c.tx_bytes == t)))
        },
{
}

/// The hardware address in a file is what stands in it between white space, in lower case.
pub proof fn law_hardware_address(s: Seq<char>, a: Seq<char>)
    ensures
        hardware_address(None) is None,
        hardware_address(Some(s)) == Some(text::lower(text::trim(s))),
{
}

/// Where an interface and its counters are found, and what is said of a command that failed.
pub proof fn law_paths_and_errors(name: Seq<char>, counter: Seq<char>, e: Seq<char>)
    ensures
        iface_path(name) == "/sys/class/net/"@ + name,
        counter_path(name, counter) == "/sys/class/net/"@ + name + "/statistics/"@ + counter,
        command_error(name, None) == "running "@ + name,
        command_error(name, Some(e)) == name + " failed: "@ + e,
{
}

} // verus!

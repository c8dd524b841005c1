//! Internet addresses and their text notations.

use crate::number;
use crate::text;
use vstd::prelude::*;

verus! {

/// An internet address: the four octets of IPv4, or the eight groups of IPv6.
#[derive(Debug, Clone, Copy, PartialEq, Eq, Structural)]
pub enum IpAddr {
    V4(u8, u8, u8, u8),
    V6(u16, u16, u16, u16, u16, u16, u16, u16),
}

// ---------------------------------------------------------------------------------------------
// Reading

/// The octet that `s` writes: one to three decimal digits without a superfluous zero, at most 255.
pub open spec fn octet(s: Seq<char>) -> Option<u8> {
    if 1 <= s.len() <= 3 && number::all_digits(s) && (s[0] != '0' || s.len() == 1)
        && number::digits_value(s) <= 255 {
        Some(number::digits_value(s) as u8)
    } else {
        None
    }
}

/// The value of a hexadecimal digit.
pub open spec fn hex_digit_value(c: char) -> nat {
    if '0' <= c <= '9' {
        (c as int - 48) as nat
    } else if 'a' <= c <= 'f' {
        (c as int - 97 + 10) as nat
    } else {
        (c as int - 65 + 10) as nat
    }
}

/// The number that hexadecimal digits write.
pub open spec fn hex_value(s: Seq<char>) -> nat
    decreases s.len(),
{
    if s.len() == 0 {
        0
    } else {
        hex_value(s.drop_last()) * 16 + hex_digit_value(s.last())
    }
}

/// Every character of `s` is a hexadecimal digit.
pub open spec fn all_hex(s: Seq<char>) -> bool {
    forall|i: int| 0 <= i < s.len() ==> text::is_hex_digit(#[trigger] s[i])
}

/// The group that `s` writes: one to four hexadecimal digits.
pub open spec fn group(s: Seq<char>) -> Option<u16> {
    if 1 <= s.len() <= 4 && all_hex(s) {
        Some(hex_value(s) as u16)
    } else {
        None
    }
}

/// The octets that `s` writes in dotted notation.
pub open spec fn dotted(s: Seq<char>) -> Option<(u8, u8, u8, u8)> {
    let parts = text::split_on(s, "."@);
    if parts.len() == 4 && octet(parts[0]) is Some && octet(parts[1]) is Some && octet(
        parts[2],
    ) is Some && octet(parts[3]) is Some {
        Some(
            (
                octet(parts[0]).unwrap(),
                octet(parts[1]).unwrap(),
                octet(parts[2]).unwrap(),
                octet(parts[3]).unwrap(),
            ),
        )
    } else {
        None
    }
}

/// The groups that the first pieces of an address write; where `embedded`, the last piece may be
/// four octets in dotted notation, which stand for two groups.
pub open spec fn piece_groups(parts: Seq<Seq<char>>, embedded: bool) -> Option<Seq<u16>>
    decreases parts.len(),
{
    if parts.len() == 0 {
        Some(seq![])
    } else {
        let last = parts.last();
        match piece_groups(parts.drop_last(), false) {
            None => None,
            Some(before) => match group(last) {
                Some(g) => Some(before.push(g)),
                None => match dotted(last) {
                    Some(o) if embedded => Some(
                        before.push((o.0 as int * 256 + o.1) as u16).push(
                            (o.2 as int * 256 + o.3) as u16,
                        ),
                    ),
                    _ => None,
                },
            },
        }
    }
}

/// The groups that `s` writes with colons between them; the empty text writes none.
pub open spec fn colon_groups(s: Seq<char>, embedded: bool) -> Option<Seq<u16>> {
    if s.len() == 0 {
        Some(seq![])
    } else {
        piece_groups(text::split_on(s, ":"@), embedded)
    }
}

/// The eight groups that `s` writes. A double colon stands for one or more groups of zeros.
pub open spec fn eight_groups(s: Seq<char>) -> Option<Seq<u16>> {
    match text::find(s, "::"@) {
        Some(i) => {
            let head = colon_groups(s.take(i), false);
            let tail = colon_groups(s.skip(i + 2), true);
            if head is Some && tail is Some && head.unwrap().len() + tail.unwrap().len() <= 7 {
                let zeros = (8 - head.unwrap().len() - tail.unwrap().len()) as nat;
                Some(head.unwrap() + Seq::new(zeros, |i: int| 0u16) + tail.unwrap())
            } else {
                None
            }
        },
        None => match colon_groups(s, true) {
            Some(g) if g.len() == 8 => Some(g),
            _ => None,
        },
    }
}

/// The address that `s` writes.
pub open spec fn ip(s: Seq<char>) -> Option<IpAddr> {
    match dotted(s) {
        Some(o) => Some(IpAddr::V4(o.0, o.1, o.2, o.3)),
        None => match eight_groups(s) {
            Some(g) => Some(IpAddr::V6(g[0], g[1], g[2], g[3], g[4], g[5], g[6], g[7])),
            None => None,
        },
    }
}

/// `a` is an IPv6 address of the link-local block `fe80::/10`.
pub open spec fn is_link_local_v6(a: IpAddr) -> bool {
    a matches IpAddr::V6(g, _, _, _, _, _, _, _) && 0xfe80 <= g <= 0xfebf
}

// ---------------------------------------------------------------------------------------------
// Writing

/// The character of a hexadecimal digit in lower case.
pub open spec fn hex_char(d: nat) -> char {
    if d < 10 {
        (48 + d) as char
    } else {
        (87 + d) as char
    }
}

/// The hexadecimal numeral of `n`, without leading zeros.
pub open spec fn hexadecimal(n: nat) -> Seq<char>
    decreases n,
{
    if n < 16 {
        seq![hex_char(n)]
    } else {
        hexadecimal(n / 16).push(hex_char(n % 16))
    }
}

/// Four octets in dotted notation.
pub open spec fn dotted_text(a: nat, b: nat, c: nat, d: nat) -> Seq<char> {
    number::decimal(a) + "."@ + number::decimal(b) + "."@ + number::decimal(c) + "."@
        + number::decimal(d)
}

/// Groups with colons between them.
pub open spec fn groups_text(g: Seq<u16>) -> Seq<char>
    decreases g.len(),
{
    if g.len() == 0 {
        seq![]
    } else if g.len() == 1 {
        hexadecimal(g[0] as nat)
    } else {
        groups_text(g.drop_last()) + ":"@ + hexadecimal(g.last() as nat)
    }
}

/// The number of zero groups in a row from position `i` on.
pub open spec fn zeros_at(g: Seq<u16>, i: int) -> nat
    decreases g.len() - i,
{
    if 0 <= i < g.len() && g[i] == 0 {
        1 + zeros_at(g, i + 1)
    } else {
        0
    }
}

/// The position and the length of the longest row of zero groups at or after `i`, the first such.
pub open spec fn longest_zeros(g: Seq<u16>, i: int) -> (int, nat)
    decreases g.len() - i,
{
    if i >= g.len() {
        (i, 0)
    } else {
        let rest = longest_zeros(g, i + 1);
        if zeros_at(g, i) >= rest.1 {
            (i, zeros_at(g, i))
        } else {
            rest
        }
    }
}

/// Eight groups in colon notation: an address that maps an IPv4 address ends in its dotted
/// notation, and otherwise the longest row of two or more zero groups is written as a double colon.
pub open spec fn eight_groups_text(g: Seq<u16>) -> Seq<char> {
    if g[0] == 0 && g[1] == 0 && g[2] == 0 && g[3] == 0 && g[4] == 0 && g[5] == 0xffff {
        "::ffff:"@ + dotted_text(
            g[6] as nat / 256,
            g[6] as nat % 256,
            g[7] as nat / 256,
            g[7] as nat % 256,
        )
    } else {
        let run = longest_zeros(g, 0);
        if run.1 > 1 {
            groups_text(g.take(run.0)) + "::"@ + groups_text(g.skip(run.0 + run.1))
        } else {
            groups_text(g)
        }
    }
}

/// The notation of an address.
pub open spec fn ip_text(a: IpAddr) -> Seq<char> {
    match a {
        IpAddr::V4(a, b, c, d) => dotted_text(a as nat, b as nat, c as nat, d as nat),
        IpAddr::V6(a, b, c, d, e, f, g, h) => eight_groups_text(seq![a, b, c, d, e, f, g, h]),
    }
}

// ---------------------------------------------------------------------------------------------
// Executable functions

proof fn lemma_digits_below_1000(s: Seq<char>)
    requires
        s.len() <= 3,
        number::all_digits(s),
    ensures
        number::digits_value(s) < 1000,
{
    reveal_with_fuel(number::digits_value, 4);
    if s.len() > 0 {
        assert(number::is_digit(s[s.len() - 1]));
        if s.len() > 1 {
            assert(number::is_digit(s[s.len() - 2]));
            if s.len() > 2 {
                assert(number::is_digit(s[s.len() - 3]));
            }
        }
    }
}

/// Reads an octet.
fn parse_octet(s: &str) -> (r: Option<u8>)
    ensures
        r == octet(s@),
{
    let a: Vec<char> = text::chars_of(s);
    if a.len() == 0 || a.len() > 3 {
        return None;
    }
    if a[0] == '0' && a.len() > 1 {
        return None;
    }
    if a[0] == '+' {
        assert(!number::is_digit(s@[0]));
        return None;
    }
    match number::parse_u64(s) {
        Some(n) => if n <= 255 {
            Some(n as u8)
        } else {
            None
        },
        None => {
            proof {
                if number::all_digits(s@) {
                    lemma_digits_below_1000(s@);
                }
            }
            None
        },
    }
}

/// The value of a hexadecimal digit.
pub fn hex_digit_value_of(c: char) -> (r: u16)
    requires
        text::is_hex_digit(c),
    ensures
        r == hex_digit_value(c),
        r < 16,
{
    match c {
        '0' => 0,
        '1' => 1,
        '2' => 2,
        '3' => 3,
        '4' => 4,
        '5' => 5,
        '6' => 6,
        '7' => 7,
        '8' => 8,
        '9' => 9,
        'a' | 'A' => 10,
        'b' | 'B' => 11,
        'c' | 'C' => 12,
        'd' | 'D' => 13,
        'e' | 'E' => 14,
        _ => 15,
    }
}

/// Reads a group.
fn parse_group(s: &str) -> (r: Option<u16>)
    ensures
        r == group(s@),
{
    let a: Vec<char> = text::chars_of(s);
    if a.len() == 0 || a.len() > 4 {
        return None;
    }
    let mut n: u32 = 0;
    let mut bound: u32 = 1;
    let mut i: usize = 0;
    assert(a@.take(0) =~= seq![]);
    while i < a.len()
        invariant
            i <= a@.len() <= 4,
            a@ == s@,
            forall|k: int| 0 <= k < i ==> text::is_hex_digit(#[trigger] a@[k]),
            n == hex_value(a@.take(i as int)),
            n < bound,
            i == 0 ==> bound == 1,
            i == 1 ==> bound == 16,
            i == 2 ==> bound == 256,
            i == 3 ==> bound == 4096,
            i == 4 ==> bound == 65536,
        decreases a@.len() - i,
    {
        if !text::is_hex_char(a[i]) {
            assert(!text::is_hex_digit(s@[i as int]));
            return None;
        }
        assert(a@.take(i + 1).drop_last() =~= a@.take(i as int));
        n = n * 16 + hex_digit_value_of(a[i]) as u32;
        bound = bound * 16;
        i = i + 1;
    }
    assert(a@.take(i as int) =~= a@);
    Some(n as u16)
}

/// Reads four octets in dotted notation.
fn parse_dotted(s: &str) -> (r: Option<(u8, u8, u8, u8)>)
    ensures
        r == dotted(s@),
{
    proof {
        reveal_strlit(".");
    }
    let parts: Vec<String> = text::split_str(s, ".");
    let ghost model = text::split_on(s@, "."@);
    assert(parts@.len() == model.len());
    if parts.len() != 4 {
        return None;
    }
    assert(forall|i: int| 0 <= i < 4 ==> (#[trigger] parts@[i])@ == model[i]);
    let a: Option<u8> = parse_octet(parts[0].as_str());
    let b: Option<u8> = parse_octet(parts[1].as_str());
    let c: Option<u8> = parse_octet(parts[2].as_str());
    let d: Option<u8> = parse_octet(parts[3].as_str());
    match (a, b, c, d) {
        (Some(a), Some(b), Some(c), Some(d)) => Some((a, b, c, d)),
        _ => None,
    }
}

/// A piece that writes no group spoils the whole row, whatever follows it.
proof fn lemma_piece_spoils(parts: Seq<Seq<char>>, k: int, embedded: bool)
    requires
        0 <= k < parts.len(),
        piece_groups(parts.take(k), false) is None,
    ensures
        piece_groups(parts, embedded) is None,
    decreases parts.len(),
{
    if k == parts.len() - 1 {
        assert(parts.drop_last() =~= parts.take(k));
    } else {
        assert(parts.drop_last().take(k) =~= parts.take(k));
        lemma_piece_spoils(parts.drop_last(), k, false);
    }
}

/// Reads groups with colons between them.
fn parse_colon_groups(s: &str, embedded: bool) -> (r: Option<Vec<u16>>)
    ensures
        match r {
            Some(g) => colon_groups(s@, embedded) == Some(g@),
            None => colon_groups(s@, embedded) is None,
        },
{
    let mut out: Vec<u16> = Vec::new();
    if s.is_empty() {
        assert(out@ =~= seq![]);
        return Some(out);
    }
    proof {
        reveal_strlit(":");
    }
    let parts: Vec<String> = text::split_str(s, ":");
    let ghost model = text::split_on(s@, ":"@);
    assert(parts@.len() == model.len());
    let mut i: usize = 0;
    assert(model.take(0) =~= seq![]);
    assert(out@ =~= seq![]);
    while i < parts.len()
        invariant
            i <= parts@.len(),
            parts@.len() == model.len(),
            model == text::split_on(s@, ":"@),
            model == text::texts(parts@),
            s@.len() > 0,
            i < parts@.len() ==> piece_groups(model.take(i as int), false) == Some(out@),
            i == parts@.len() ==> piece_groups(model, embedded) == Some(out@),
        decreases parts@.len() - i,
    {
        let ghost before = out@;
        assert(parts@[i as int]@ == model[i as int]);
        assert(model.take(i + 1).drop_last() =~= model.take(i as int));
        assert(model.take(i + 1).last() == model[i as int]);
        let is_last: bool = i + 1 == parts.len();
        proof {
            if is_last {
                assert(model.take(i + 1) =~= model);
            }
        }
        match parse_group(parts[i].as_str()) {
            Some(g) => {
                out.push(g);
            },
            None => {
                match parse_dotted(parts[i].as_str()) {
                    Some(o) => {
                        if !is_last || !embedded {
                            proof {
                                assert(piece_groups(model.take(i + 1), false) is None);
                                if !is_last {
                                    lemma_piece_spoils(model, i + 1, embedded);
                                }
                            }
                            return None;
                        }
                        out.push((o.0 as u16) * 256 + (o.1 as u16));
                        out.push((o.2 as u16) * 256 + (o.3 as u16));
                    },
                    None => {
                        proof {
                            assert(piece_groups(model.take(i + 1), false) is None);
                            if !is_last {
                                lemma_piece_spoils(model, i + 1, embedded);
                            }
                        }
                        return None;
                    },
                }
            },
        }
        i = i + 1;
    }
    Some(out)
}

/// Reads the eight groups of an IPv6 address.
fn parse_eight_groups(s: &str) -> (r: Option<Vec<u16>>)
    ensures
        match r {
            Some(g) => eight_groups(s@) == Some(g@) && g@.len() == 8,
            None => eight_groups(s@) is None,
        },
{
    proof {
        reveal_strlit("::");
    }
    match text::find_str(s, "::") {
        Some(i) => {
            let a: Vec<char> = text::chars_of(s);
            let before: String = text::slice_string(&a, 0, i);
            let n: usize = a.len();
            let after: String = text::slice_string(&a, i + 2, n);
            assert(before@ =~= s@.take(i as int));
            assert(after@ =~= s@.skip(i + 2));
            match (
                parse_colon_groups(before.as_str(), false),
                parse_colon_groups(after.as_str(), true),
            ) {
                (Some(head), Some(tail)) => {
                    if head.len() > 7 || tail.len() > 7 || head.len() + tail.len() > 7 {
                        return None;
                    }
                    let ghost h = head@;
                    let ghost zeros = (8 - head@.len() - tail@.len()) as nat;
                    let mut out: Vec<u16> = head;
                    let mut k: usize = out.len();
                    while k < 8 - tail.len()
                        invariant
                            h.len() <= k <= 8 - tail@.len(),
                            h.len() + tail@.len() <= 7,
                            zeros == 8 - h.len() - tail@.len(),
                            out@ == h + Seq::new((k - h.len()) as nat, |i: int| 0u16),
                        decreases 8 - k,
                    {
                        out.push(0);
                        k = k + 1;
                        assert(out@ =~= h + Seq::new((k - h.len()) as nat, |i: int| 0u16));
                    }
                    let ghost padded = out@;
                    let mut j: usize = 0;
                    while j < tail.len()
                        invariant
                            j <= tail@.len(),
                            out@ == padded + tail@.take(j as int),
                        decreases tail@.len() - j,
                    {
                        out.push(tail[j]);
                        j = j + 1;
                        assert(out@ =~= padded + tail@.take(j as int));
                    }
                    assert(out@ =~= h + Seq::new(zeros, |i: int| 0u16) + tail@);
                    Some(out)
                },
                _ => None,
            }
        },
        None => match parse_colon_groups(s, true) {
            Some(g) => if g.len() == 8 {
                Some(g)
            } else {
                None
            },
            None => None,
        },
    }
}

/// Reads an address.
pub fn parse_ip(s: &str) -> (r: Option<IpAddr>)
    ensures
        r == ip(s@),
{
    match parse_dotted(s) {
        Some(o) => Some(IpAddr::V4(o.0, o.1, o.2, o.3)),
        None => match parse_eight_groups(s) {
            Some(g) => Some(IpAddr::V6(g[0], g[1], g[2], g[3], g[4], g[5], g[6], g[7])),
            None => None,
        },
    }
}

/// Whether `a` is an IPv6 address of the link-local block.
pub fn is_link_local(a: IpAddr) -> (r: bool)
    ensures
        r == is_link_local_v6(a),
{
    match a {
        IpAddr::V6(g, _, _, _, _, _, _, _) => 0xfe80 <= g && g <= 0xfebf,
        IpAddr::V4(_, _, _, _) => false,
    }
}

/// The character of a hexadecimal digit in lower case.
pub fn hex_char_of(d: u16) -> (c: char)
    requires
        d < 16,
    ensures
        c == hex_char(d as nat),
{
    match d {
        0 => '0',
        1 => '1',
        2 => '2',
        3 => '3',
        4 => '4',
        5 => '5',
        6 => '6',
        7 => '7',
        8 => '8',
        9 => '9',
        10 => 'a',
        11 => 'b',
        12 => 'c',
        13 => 'd',
        14 => 'e',
        _ => 'f',
    }
}

/// The hexadecimal numeral of `n`.
fn hexadecimal_of(n: u16) -> (out: String)
    ensures
        out@ == hexadecimal(n as nat),
    decreases n,
{
    if n < 16 {
        let mut out: String = String::new();
        out.push(hex_char_of(n));
        out
    } else {
        let mut out: String = hexadecimal_of(n / 16);
        out.push(hex_char_of(n % 16));
        out
    }
}

/// Four octets in dotted notation.
fn dotted_string(a: u16, b: u16, c: u16, d: u16) -> (out: String)
    ensures
        out@ == dotted_text(a as nat, b as nat, c as nat, d as nat),
{
    let mut out: String = number::decimal_of(a as u64);
    out.append(".");
    out.append(number::decimal_of(b as u64).as_str());
    out.append(".");
    out.append(number::decimal_of(c as u64).as_str());
    out.append(".");
    out.append(number::decimal_of(d as u64).as_str());
    out
}

/// The groups from `from` up to `to` with colons between them.
fn groups_string(g: &Vec<u16>, from: usize, to: usize) -> (out: String)
    requires
        from <= to <= g@.len(),
    ensures
        out@ == groups_text(g@.subrange(from as int, to as int)),
{
    let mut out: String = String::new();
    let mut i: usize = from;
    assert(out@ =~= groups_text(g@.subrange(from as int, from as int)));
    while i < to
        invariant
            from <= i <= to <= g@.len(),
            out@ == groups_text(g@.subrange(from as int, i as int)),
        decreases to - i,
    {
        let ghost grown = g@.subrange(from as int, i + 1);
        assert(grown.drop_last() =~= g@.subrange(from as int, i as int));
        assert(grown.last() == g@[i as int]);
        if i > from {
            out.append(":");
            out.append(hexadecimal_of(g[i]).as_str());
        } else {
            let ghost empty = out@;
            out.append(hexadecimal_of(g[i]).as_str());
            assert(empty =~= seq![]);
            assert(out@ =~= hexadecimal(g@[i as int] as nat));
        }
        i = i + 1;
    }
    out
}

proof fn lemma_zeros_fit(g: Seq<u16>, i: int)
    requires
        0 <= i <= g.len(),
    ensures
        i + zeros_at(g, i) <= g.len(),
    decreases g.len() - i,
{
    if i < g.len() && g[i] == 0 {
        lemma_zeros_fit(g, i + 1);
    }
}

/// The longest row of zero groups.
fn longest_zeros_of(g: &Vec<u16>) -> (r: (usize, usize))
    ensures
        longest_zeros(g@, 0) == (r.0 as int, r.1 as nat),
        r.0 + r.1 <= g@.len(),
{
    let n: usize = g.len();
    let mut best: (usize, usize) = (n, 0);
    let mut here: usize = 0;
    let mut i: usize = n;
    while i > 0
        invariant
            i <= n == g@.len(),
            longest_zeros(g@, i as int) == (best.0 as int, best.1 as nat),
            best.0 + best.1 <= n,
            here == zeros_at(g@, i as int),
            i + here <= n,
        decreases i,
    {
        i = i - 1;
        if g[i] == 0 {
            here = here + 1;
        } else {
            here = 0;
        }
        proof {
            lemma_zeros_fit(g@, i as int);
        }
        if here >= best.1 {
            best = (i, here);
        }
    }
    best
}

/// Eight groups in colon notation.
fn eight_groups_string(g: &Vec<u16>) -> (out: String)
    requires
        g@.len() == 8,
    ensures
        out@ == eight_groups_text(g@),
{
    if g[0] == 0 && g[1] == 0 && g[2] == 0 && g[3] == 0 && g[4] == 0 && g[5] == 0xffff {
        let mut out: String = text::owned("::ffff:");
        out.append(dotted_string(g[6] / 256, g[6] % 256, g[7] / 256, g[7] % 256).as_str());
        out
    } else {
        let run: (usize, usize) = longest_zeros_of(g);
        if run.1 > 1 {
            let mut out: String = groups_string(g, 0, run.0);
            out.append("::");
            out.append(groups_string(g, run.0 + run.1, 8).as_str());
            assert(g@.subrange(0, run.0 as int) =~= g@.take(run.0 as int));
            assert(g@.subrange(run.0 + run.1, 8) =~= g@.skip(run.0 + run.1));
            out
        } else {
            assert(g@.subrange(0, 8) =~= g@);
            groups_string(g, 0, 8)
        }
    }
}

/// The notation of an address.
pub fn ip_string(a: IpAddr) -> (out: String)
    ensures
        out@ == ip_text(a),
{
    match a {
        IpAddr::V4(a, b, c, d) => dotted_string(a as u16, b as u16, c as u16, d as u16),
        IpAddr::V6(a, b, c, d, e, f, g, h) => {
            let groups: Vec<u16> = vec![a, b, c, d, e, f, g, h];
            assert(groups@ =~= seq![a, b, c, d, e, f, g, h]);
            eight_groups_string(&groups)
        },
    }
}

// ---------------------------------------------------------------------------------------------
// Laws

proof fn lemma_octet(n: nat)
    requires
        n <= 255,
    ensures
        octet(number::decimal(n)) == Some(n as u8),
        1 <= number::decimal(n).len() <= 3,
        !number::decimal(n).contains('.'),
        !number::decimal(n).contains(':'),
{
    number::lemma_decimal_reads_back(n);
    reveal_with_fuel(number::decimal, 4);
    let s = number::decimal(n);
    if n >= 10 {
        if n < 100 {
            assert(s[0] == number::digit_char(n / 10));
        } else {
            assert(s[0] == number::digit_char(n / 10 / 10));
        }
    }
    assert forall|i: int| 0 <= i < s.len() implies #[trigger] s[i] != '.' && s[i] != ':' by {
        assert(number::is_digit(s[i]));
    }
}

proof fn lemma_dotted(a: nat, b: nat, c: nat, d: nat)
    requires
        a <= 255,
        b <= 255,
        c <= 255,
        d <= 255,
    ensures
        dotted(dotted_text(a, b, c, d)) == Some((a as u8, b as u8, c as u8, d as u8)),
        !dotted_text(a, b, c, d).contains(':'),
        dotted_text(a, b, c, d).contains('.'),
        dotted_text(a, b, c, d).len() > 0,
{
    reveal_strlit(".");
    lemma_octet(a);
    lemma_octet(b);
    lemma_octet(c);
    lemma_octet(d);
    let (p, q, r, t) = (
        number::decimal(a),
        number::decimal(b),
        number::decimal(c),
        number::decimal(d),
    );
    let dot = seq!['.'];
    assert("."@ =~= dot);
    text::lemma_split_last(p, '.', q);
    text::lemma_split_last(p + dot + q, '.', r);
    text::lemma_split_last(p + dot + q + dot + r, '.', t);
    assert(text::split_on(dotted_text(a, b, c, d), dot) =~= seq![p, q, r, t]);
    let s = dotted_text(a, b, c, d);
    assert(s[p.len() as int] == '.');
    assert forall|i: int| 0 <= i < s.len() implies #[trigger] s[i] != ':' by {
        let (x, y) = (p.len() + 1, p.len() + 1 + q.len() + 1);
        let z = y + r.len() + 1;
        if i < p.len() {
            assert(s[i] == p[i]);
            assert(p.contains(p[i]));
        } else if x <= i < x + q.len() {
            assert(s[i] == q[i - x]);
            assert(q.contains(q[i - x]));
        } else if y <= i < y + r.len() {
            assert(s[i] == r[i - y]);
            assert(r.contains(r[i - y]));
        } else if z <= i {
            assert(s[i] == t[i - z]);
            assert(t.contains(t[i - z]));
        }
    }
}

proof fn lemma_hexadecimal(n: nat)
    ensures
        hexadecimal(n).len() > 0,
        all_hex(hexadecimal(n)),
        hex_value(hexadecimal(n)) == n,
        n < 0x10 ==> hexadecimal(n).len() <= 1,
        n < 0x100 ==> hexadecimal(n).len() <= 2,
        n < 0x1000 ==> hexadecimal(n).len() <= 3,
        n < 0x1_0000 ==> hexadecimal(n).len() <= 4,
    decreases n,
{
    let s = hexadecimal(n);
    if n < 16 {
        assert(s.drop_last() =~= seq![]);
        assert(hex_value(s.drop_last()) == 0);
        assert(s.last() == hex_char(n));
    } else {
        lemma_hexadecimal(n / 16);
        let t = hexadecimal(n / 16);
        assert(s.drop_last() =~= t);
        assert(s.last() == hex_char(n % 16));
        assert forall|i: int| 0 <= i < s.len() implies text::is_hex_digit(#[trigger] s[i]) by {
            if i < t.len() {
                assert(s[i] == t[i]);
            }
        }
    }
}

/// Hexadecimal digits and single colons between them.
spec fn tidy(s: Seq<char>) -> bool {
    &&& s.len() > 0 && s[0] != ':' && s.last() != ':'
    &&& forall|i: int| 0 <= i < s.len() ==> (text::is_hex_digit(#[trigger] s[i]) || s[i] == ':')
    &&& forall|i: int|
        0 <= i && i + 1 < s.len() && #[trigger] s[i] == ':' ==> s[i + 1] != ':'
}

proof fn lemma_groups(g: Seq<u16>, embedded: bool)
    requires
        g.len() > 0,
    ensures
        tidy(groups_text(g)),
        piece_groups(text::split_on(groups_text(g), ":"@), embedded) == Some(g),
    decreases g.len(),
{
    reveal_strlit(":");
    let colon = seq![':'];
    assert(":"@ =~= colon);
    let x = hexadecimal(g.last() as nat);
    lemma_hexadecimal(g.last() as nat);
    assert forall|i: int| 0 <= i < x.len() implies #[trigger] x[i] != ':' by {
        assert(text::is_hex_digit(x[i]));
    }
    assert(!x.contains(':'));
    assert(group(x) == Some(g.last()));
    if g.len() == 1 {
        assert(g[0] == g.last());
        text::lemma_split_last(x, ':', x);
        let parts = seq![x];
        assert(parts.drop_last() =~= seq![]);
        assert(piece_groups(parts.drop_last(), false) == Some(Seq::<u16>::empty()));
        assert(Seq::<u16>::empty().push(g.last()) =~= g);
    } else {
        let before = g.drop_last();
        let t = groups_text(before);
        lemma_groups(before, false);
        text::lemma_split_last(t, ':', x);
        let parts = text::split_on(t, colon).push(x);
        assert(parts.drop_last() =~= text::split_on(t, colon));
        assert(before.push(g.last()) =~= g);
        let s = groups_text(g);
        assert(s == t + colon + x);
        assert(s[0] == t[0] && s.last() == x.last());
        assert forall|i: int| 0 <= i < s.len() implies (text::is_hex_digit(#[trigger] s[i]) || s[i]
            == ':') by {
            if i < t.len() {
                assert(s[i] == t[i]);
            } else if i > t.len() {
                assert(s[i] == x[i - t.len() - 1]);
            }
        }
        assert forall|i: int| 0 <= i && i + 1 < s.len() && #[trigger] s[i] == ':' implies s[i + 1]
            != ':' by {
            if i < t.len() {
                assert(s[i] == t[i]);
                if i + 1 < t.len() {
                    assert(s[i + 1] == t[i + 1]);
                }
            } else {
                assert(s[i + 1] == x[i - t.len()]);
            }
        }
    }
}

/// A text without dots writes no octets.
proof fn lemma_no_dots(s: Seq<char>)
    requires
        !s.contains('.'),
    ensures
        dotted(s) is None,
{
    reveal_strlit(".");
    assert("."@ =~= seq!['.']);
    text::lemma_split_last(s, '.', s);
}

proof fn lemma_colon_groups(g: Seq<u16>, embedded: bool)
    ensures
        colon_groups(groups_text(g), embedded) == Some(g),
{
    if g.len() > 0 {
        lemma_groups(g, embedded);
    } else {
        assert(g =~= seq![]);
    }
}

/// The double colon between two rows of groups is the first one.
proof fn lemma_double_colon(g: Seq<u16>, h: Seq<u16>)
    ensures
        text::first_at(groups_text(g) + "::"@ + groups_text(h), "::"@, groups_text(g).len() as int),
        !(groups_text(g) + "::"@ + groups_text(h)).contains('.'),
{
    reveal_strlit("::");
    let (a, b) = (groups_text(g), groups_text(h));
    if g.len() > 0 {
        lemma_groups(g, false);
    }
    if h.len() > 0 {
        lemma_groups(h, false);
    }
    let s = a + "::"@ + b;
    let n = a.len() as int;
    assert(s.subrange(n, n + 2) =~= "::"@);
    assert forall|j: int| 0 <= j < n implies #[trigger] s.subrange(j, j + "::"@.len()) != "::"@ by {
        let p = s.subrange(j, j + 2);
        assert(p[0] == a[j]);
        if p == "::"@ {
            assert(a[j] == ':');
            if j + 1 < n {
                assert(p[1] == a[j + 1]);
            } else {
                assert(a.last() == ':');
            }
        }
    }
    assert forall|i: int| 0 <= i < s.len() implies #[trigger] s[i] != '.' by {
        if i < n {
            assert(s[i] == a[i]);
        } else if i >= n + 2 {
            assert(s[i] == b[i - n - 2]);
        }
    }
}

proof fn lemma_run(g: Seq<u16>, i: int)
    requires
        0 <= i <= g.len(),
    ensures
        i + zeros_at(g, i) <= g.len(),
        forall|k: int| i <= k < i + zeros_at(g, i) ==> #[trigger] g[k] == 0,
        i + zeros_at(g, i) < g.len() ==> g[i + zeros_at(g, i)] != 0,
    decreases g.len() - i,
{
    if i < g.len() && g[i] == 0 {
        lemma_run(g, i + 1);
    }
}

proof fn lemma_longest(g: Seq<u16>, i: int)
    requires
        0 <= i <= g.len(),
    ensures
        ({
            let run = longest_zeros(g, i);
            &&& i <= run.0 <= g.len()
            &&& run.1 == zeros_at(g, run.0)
            &&& forall|j: int| i <= j < g.len() ==> #[trigger] zeros_at(g, j) <= run.1
            &&& forall|j: int| i <= j < run.0 ==> #[trigger] zeros_at(g, j) < run.1
        }),
    decreases g.len() - i,
{
    if i < g.len() {
        lemma_longest(g, i + 1);
    }
}

proof fn lemma_eight_groups(g: Seq<u16>)
    requires
        g.len() == 8,
    ensures
        eight_groups(eight_groups_text(g)) == Some(g),
        dotted(eight_groups_text(g)) is None,
{
    let s = eight_groups_text(g);
    if g[0] == 0 && g[1] == 0 && g[2] == 0 && g[3] == 0 && g[4] == 0 && g[5] == 0xffff {
        lemma_mapped(g);
    } else {
        lemma_longest(g, 0);
        let run = longest_zeros(g, 0);
        lemma_run(g, run.0);
        if run.1 > 1 {
            let (a, b) = (g.take(run.0), g.skip(run.0 + run.1));
            lemma_double_colon(a, b);
            let n = groups_text(a).len() as int;
            reveal_strlit("::");
            text::law_find(s, "::"@, n);
            assert(s.take(n) =~= groups_text(a));
            assert(s.skip(n + 2) =~= groups_text(b));
            lemma_colon_groups(a, false);
            lemma_colon_groups(b, true);
            let zeros = (8 - a.len() - b.len()) as nat;
            assert(a + Seq::new(zeros, |i: int| 0u16) + b =~= g) by {
                assert forall|k: int| 0 <= k < 8 implies (a + Seq::new(zeros, |i: int| 0u16)
                    + b)[k] == #[trigger] g[k] by {}
            }
            lemma_no_dots(s);
        } else {
            lemma_groups(g, true);
            reveal_strlit("::");
            assert(text::absent(s, "::"@)) by {
                assert forall|j: int|
                    0 <= j && j + "::"@.len() <= s.len() implies #[trigger] s.subrange(
                    j,
                    j + "::"@.len(),
                ) != "::"@ by {
                    let p = s.subrange(j, j + 2);
                    assert(p[0] == s[j] && p[1] == s[j + 1]);
                }
            }
            text::law_find(s, "::"@, 0);
            assert forall|i: int| 0 <= i < s.len() implies #[trigger] s[i] != '.' by {}
            lemma_no_dots(s);
        }
    }
}

/// An address that maps one of four octets.
proof fn lemma_mapped(g: Seq<u16>)
    requires
        g.len() == 8,
        g[0] == 0 && g[1] == 0 && g[2] == 0 && g[3] == 0 && g[4] == 0 && g[5] == 0xffff,
    ensures
        eight_groups(eight_groups_text(g)) == Some(g),
        dotted(eight_groups_text(g)) is None,
{
    reveal_strlit("::ffff:");
    reveal_strlit("::");
    reveal_strlit(":");
    reveal_strlit(".");
    let (a, b, c, d) = (
        g[6] as nat / 256,
        g[6] as nat % 256,
        g[7] as nat / 256,
        g[7] as nat % 256,
    );
    let quad = dotted_text(a, b, c, d);
    lemma_dotted(a, b, c, d);
    let s = eight_groups_text(g);
    assert(s.subrange(0, 2) =~= "::"@);
    assert(text::first_at(s, "::"@, 0));
    text::law_find(s, "::"@, 0);
    let head = seq!['f', 'f', 'f', 'f'];
    let rest = s.skip(2);
    assert(rest =~= head + seq![':'] + quad);
    assert(":"@ =~= seq![':']);
    assert(!head.contains(':'));
    text::lemma_split_last(head, ':', quad);
    let parts = seq![head].push(quad);
    assert(text::split_on(rest, ":"@) =~= parts);
    assert(s.take(0) =~= seq![]);
    assert(group(head) == Some(0xffffu16)) by {
        assert(all_hex(head));
        reveal_with_fuel(hex_value, 5);
        assert(head.drop_last() =~= seq!['f', 'f', 'f']);
        assert(head.drop_last().drop_last() =~= seq!['f', 'f']);
        assert(head.drop_last().drop_last().drop_last() =~= seq!['f']);
        assert(head.drop_last().drop_last().drop_last().drop_last() =~= seq![]);
    }
    assert(group(quad) is None) by {
        let k = choose|k: int| 0 <= k < quad.len() && quad[k] == '.';
        if all_hex(quad) {
            assert(text::is_hex_digit(quad[k]));
        }
    }
    assert(parts.drop_last() =~= seq![head]);
    assert(seq![head].drop_last() =~= seq![]);
    assert(piece_groups(seq![], false) == Some(Seq::<u16>::empty()));
    assert(piece_groups(seq![head], false) == Some(seq![0xffffu16])) by {
        assert(Seq::<u16>::empty().push(0xffffu16) =~= seq![0xffffu16]);
    }
    let tail = seq![0xffffu16].push((a * 256 + b) as u16).push((c * 256 + d) as u16);
    assert(piece_groups(parts, true) == Some(tail));
    assert(Seq::<u16>::empty() + Seq::new(5, |i: int| 0u16) + tail =~= g);
    lemma_first_piece(s, g[6] as nat / 256, b, c, d);
}

/// The first piece between dots is no octet where the text begins with a colon.
proof fn lemma_first_piece(s: Seq<char>, a: nat, b: nat, c: nat, d: nat)
    requires
        a <= 255,
        b <= 255,
        c <= 255,
        d <= 255,
        s == "::ffff:"@ + dotted_text(a, b, c, d),
    ensures
        dotted(s) is None,
{
    reveal_strlit("::ffff:");
    reveal_strlit(".");
    lemma_octet(a);
    lemma_octet(b);
    lemma_octet(c);
    lemma_octet(d);
    let dot = seq!['.'];
    assert("."@ =~= dot);
    let p = "::ffff:"@ + number::decimal(a);
    let (q, r, t) = (number::decimal(b), number::decimal(c), number::decimal(d));
    assert(s =~= p + dot + q + dot + r + dot + t);
    assert(!p.contains('.')) by {
        assert forall|i: int| 0 <= i < p.len() implies #[trigger] p[i] != '.' by {
            if i >= 7 {
                assert(p[i] == number::decimal(a)[i - 7]);
                assert(number::decimal(a).contains(number::decimal(a)[i - 7]));
            }
        }
    }
    text::lemma_split_last(p, '.', q);
    text::lemma_split_last(p + dot + q, '.', r);
    text::lemma_split_last(p + dot + q + dot + r, '.', t);
    assert(text::split_on(s, dot)[0] == p);
    assert(octet(p) is None);
}

/// The notation of an address reads back as that address.
pub proof fn law_address_reads_back(a: IpAddr)
    ensures
        ip(ip_text(a)) == Some(a),
{
    match a {
        IpAddr::V4(a, b, c, d) => lemma_dotted(a as nat, b as nat, c as nat, d as nat),
        IpAddr::V6(a, b, c, d, e, f, g, h) => lemma_eight_groups(seq![a, b, c, d, e, f, g, h]),
    }
}

/// Four octets are written in decimal digits with dots between them; an address that maps them
/// ends in that notation.
pub proof fn law_octets_text(a: u8, b: u8, c: u8, d: u8)
    ensures
        ip_text(IpAddr::V4(a, b, c, d)) == number::decimal(a as nat) + "."@ + number::decimal(
            b as nat,
        ) + "."@ + number::decimal(c as nat) + "."@ + number::decimal(d as nat),
        ip_text(
            IpAddr::V6(
                0,
                0,
                0,
                0,
                0,
                0xffff,
                (a as int * 256 + b) as u16,
                (c as int * 256 + d) as u16,
            ),
        ) == "::ffff:"@ + ip_text(IpAddr::V4(a, b, c, d)),
{
}

/// Of eight groups that map no octets, the first longest row of two or more zeros is written as a
/// double colon; without one the groups stand with colons between them.
pub proof fn law_groups_text(g: Seq<u16>, i: int, n: int)
    requires
        g.len() == 8,
        0 <= i,
        0 <= n,
        i + n <= 8,
        !(g[0] == 0 && g[1] == 0 && g[2] == 0 && g[3] == 0 && g[4] == 0 && g[5] == 0xffff),
        forall|k: int| i <= k < i + n ==> #[trigger] g[k] == 0,
        i + n < 8 ==> g[i + n] != 0,
        forall|j: int| 0 <= j < i ==> #[trigger] zeros_at(g, j) < n,
        forall|j: int| i <= j < 8 ==> #[trigger] zeros_at(g, j) <= n,
    ensures
        n >= 2 ==> eight_groups_text(g) == groups_text(g.subrange(0, i)) + "::"@ + groups_text(
            g.subrange(i + n, 8),
        ),
        n < 2 ==> eight_groups_text(g) == groups_text(g),
{
    lemma_longest(g, 0);
    let run = longest_zeros(g, 0);
    lemma_zeros_are(g, i, n);
    if run.0 < i {
        assert(zeros_at(g, run.0) < n);
    }
    if n >= 2 {
        assert(run.1 >= n);
        if run.0 > i {
            assert(zeros_at(g, i) < run.1);
            lemma_run(g, run.0);
        }
        assert(run.0 == i && run.1 == n);
        assert(g.take(i) =~= g.subrange(0, i));
        assert(g.skip(i + n) =~= g.subrange(i + n, 8));
    } else {
        lemma_run(g, run.0);
        if run.0 < 8 {
            assert(zeros_at(g, run.0) <= n);
        }
    }
}

proof fn lemma_zeros_are(g: Seq<u16>, i: int, n: int)
    requires
        0 <= i,
        0 <= n,
        i + n <= g.len(),
        forall|k: int| i <= k < i + n ==> #[trigger] g[k] == 0,
        i + n < g.len() ==> g[i + n] != 0,
    ensures
        zeros_at(g, i) == n,
    decreases n,
{
    if n > 0 {
        assert(g[i] == 0);
        lemma_zeros_are(g, i + 1, n - 1);
    }
}

/// The groups are written in hexadecimal digits of lower case, without leading zeros.
pub proof fn law_group_digits(g: Seq<u16>, x: u16, n: nat, d: nat)
    requires
        d < 16,
    ensures
        groups_text(seq![x]) == hexadecimal(x as nat),
        g.len() > 0 ==> groups_text(g.push(x)) == groups_text(g) + ":"@ + hexadecimal(x as nat),
        d < 10 ==> hexadecimal(d) == seq![('0' as nat + d) as char],
        d >= 10 ==> hexadecimal(d) == seq![('a' as nat + d - 10) as char],
        n > 0 ==> hexadecimal(16 * n + d) == hexadecimal(n) + hexadecimal(d),
{
    assert(g.push(x).drop_last() =~= g);
    if n > 0 {
        assert((16 * n + d) / 16 == n && (16 * n + d) % 16 == d);
        assert(hexadecimal(n).push(hex_char(d)) =~= hexadecimal(n) + hexadecimal(d));
    }
}

/// What is no octet: an empty text, one of more than three characters, one with a zero before other
/// digits, one with anything but digits, and a number over 255.
pub proof fn law_not_an_octet(s: Seq<char>, i: int, n: nat)
    ensures
        s.len() == 0 || s.len() > 3 ==> octet(s) is None,
        s.len() > 1 && s[0] == '0' ==> octet(s) is None,
        0 <= i < s.len() && !('0' <= s[i] <= '9') ==> octet(s) is None,
        n > 255 ==> octet(number::decimal(n)) is None,
        n <= 255 ==> octet(number::decimal(n)) == Some(n as u8),
{
    number::lemma_decimal_reads_back(n);
    if n <= 255 {
        lemma_octet(n);
    }
    if 0 <= i < s.len() && !('0' <= s[i] <= '9') {
        assert(!number::is_digit(s[i]));
    }
}

/// The addresses of version 6 from `fe80::` up to `febf:…` are those of the link alone.
pub proof fn law_link_local(a: u8, b: u8, c: u8, d: u8, g: Seq<u16>)
    requires
        g.len() == 8,
    ensures
        !is_link_local_v6(IpAddr::V4(a, b, c, d)),
        is_link_local_v6(IpAddr::V6(g[0], g[1], g[2], g[3], g[4], g[5], g[6], g[7])) <==> g[0] / 64
            == 0x3fa,
{
}

/// Eight groups: around a double colon both sides are groups, seven at most together, and zeros fill
/// the rest; without one there are eight of them. Anything else is no address of version 6.
pub proof fn law_eight_groups(s: Seq<char>, i: int, g: Seq<u16>, h: Seq<u16>)
    ensures
        text::first_at(s, "::"@, i) ==> {
            let (a, b) = (s.subrange(0, i), s.subrange(i + 2, s.len() as int));
            &&& colon_groups(a, false) is None || colon_groups(b, true) is None ==> eight_groups(
                s,
            ) is None
            &&& colon_groups(a, false) == Some(g) && colon_groups(b, true) == Some(h) ==> {
                &&& g.len() + h.len() > 7 ==> eight_groups(s) is None
                &&& g.len() + h.len() <= 7 ==> (eight_groups(s) matches Some(all) && {
                    &&& all.len() == 8
                    &&& all.subrange(0, g.len() as int) == g
                    &&& all.subrange(8 - h.len(), 8) == h
                    &&& forall|k: int| g.len() <= k < 8 - h.len() ==> #[trigger] all[k] == 0
                })
            }
        },
        text::absent(s, "::"@) ==> {
            &&& colon_groups(s, true) is None ==> eight_groups(s) is None
            &&& colon_groups(s, true) == Some(g) ==> {
                &&& g.len() == 8 ==> eight_groups(s) == Some(g)
                &&& g.len() != 8 ==> eight_groups(s) is None
            }
        },
{
    reveal_strlit("::");
    text::law_find(s, "::"@, i);
    if text::first_at(s, "::"@, i) {
        assert(s.take(i) =~= s.subrange(0, i));
        assert(s.skip(i + 2) =~= s.subrange(i + 2, s.len() as int));
        if g.len() + h.len() <= 7 {
            let zeros = (8 - g.len() - h.len()) as nat;
            let all = g + Seq::new(zeros, |i: int| 0u16) + h;
            assert(all.subrange(0, g.len() as int) =~= g);
            assert(all.subrange(8 - h.len(), 8) =~= h);
        }
    }
}

/// The groups of a row are its pieces: each of one to four hexadecimal digits, but for the last one
/// of a row that may end in four octets, which are two groups. A piece that is neither spoils it.
pub proof fn law_pieces(parts: Seq<Seq<char>>, last: Seq<char>, embedded: bool, g: Seq<u16>)
    ensures
        piece_groups(seq![], embedded) == Some(Seq::<u16>::empty()),
        piece_groups(parts, false) is None ==> piece_groups(parts.push(last), embedded) is None,
        piece_groups(parts, false) == Some(g) ==> {
            &&& 1 <= last.len() <= 4 && all_hex(last) ==> piece_groups(parts.push(last), embedded)
                == Some(g.push(hex_value(last) as u16))
            &&& !(1 <= last.len() <= 4 && all_hex(last)) && !embedded ==> piece_groups(
                parts.push(last),
                embedded,
            ) is None
            &&& !(1 <= last.len() <= 4 && all_hex(last)) && dotted(last) is None ==> piece_groups(
                parts.push(last),
                embedded,
            ) is None
            &&& !(1 <= last.len() <= 4 && all_hex(last)) && embedded ==> (dotted(last) matches Some(
                o,
            ) ==> piece_groups(parts.push(last), embedded) == Some(
                g.push((256 * o.0 + o.1) as u16).push((256 * o.2 + o.3) as u16),
            ))
        },
{
    assert(parts.push(last).drop_last() =~= parts);
    assert(parts.push(last).last() == last);
}

/// An address is four octets, or else eight groups.
pub proof fn law_ip(s: Seq<char>, a: u8, b: u8, c: u8, d: u8, g: Seq<u16>)
    ensures
        dotted(s) == Some((a, b, c, d)) ==> ip(s) == Some(IpAddr::V4(a, b, c, d)),
        dotted(s) is None && eight_groups(s) == Some(g) ==> ip(s) == Some(
            IpAddr::V6(g[0], g[1], g[2], g[3], g[4], g[5], g[6], g[7]),
        ),
        dotted(s) is None && eight_groups(s) is None ==> ip(s) is None,
        text::split_on(s, "."@).len() != 4 ==> dotted(s) is None,
        text::split_on(s, "."@).len() == 4 ==> (dotted(s) is Some <==> forall|k: int|
            0 <= k < 4 ==> octet(#[trigger] text::split_on(s, "."@)[k]) is Some),
{
    let parts = text::split_on(s, "."@);
    if parts.len() == 4 {
        assert((forall|k: int| 0 <= k < 4 ==> octet(#[trigger] parts[k]) is Some) ==> octet(
            parts[0],
        ) is Some && octet(parts[1]) is Some && octet(parts[2]) is Some && octet(parts[3]) is Some);
        assert(dotted(s) is Some ==> forall|k: int|
            0 <= k < 4 ==> octet(#[trigger] parts[k]) is Some) by {
            if dotted(s) is Some {
                assert forall|k: int| 0 <= k < 4 implies octet(#[trigger] parts[k]) is Some by {
                    assert(k == 0 || k == 1 || k == 2 || k == 3);
                }
            }
        }
    }
}

} // verus!

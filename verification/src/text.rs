//! Text primitives over sequences of characters.
//!
//! Every function here works on `&str` or on a vector of characters and states its result over
//! the character sequence, so that the parsers built on top can be read as plain mathematics.

use vstd::prelude::*;

verus! {

/// `String::push` appends one character to the end of the string.
pub assume_specification[ String::push ](s: &mut String, c: char)
    ensures
        final(s)@ == old(s)@.push(c),
;

// ---------------------------------------------------------------------------------------------
// Models

/// The Unicode `White_Space` property.
pub open spec fn is_white(c: char) -> bool {
    ||| '\u{9}' <= c <= '\u{d}'
    ||| c == ' '
    ||| c == '\u{85}'
    ||| c == '\u{a0}'
    ||| c == '\u{1680}'
    ||| '\u{2000}' <= c <= '\u{200a}'
    ||| c == '\u{2028}'
    ||| c == '\u{2029}'
    ||| c == '\u{202f}'
    ||| c == '\u{205f}'
    ||| c == '\u{3000}'
}

/// `s` begins with `prefix`.
pub open spec fn starts_with(s: Seq<char>, prefix: Seq<char>) -> bool {
    prefix.len() <= s.len() && s.take(prefix.len() as int) == prefix
}

/// `s` ends with `suffix`.
pub open spec fn ends_with(s: Seq<char>, suffix: Seq<char>) -> bool {
    suffix.len() <= s.len() && s.skip(s.len() - suffix.len()) == suffix
}

/// `pat` occurs in `s` at position `i`.
pub open spec fn occurs_at(s: Seq<char>, pat: Seq<char>, i: int) -> bool {
    0 <= i && i + pat.len() <= s.len() && s.subrange(i, i + pat.len()) == pat
}

/// The first position at or after `from` where `pat` occurs in `s`.
pub open spec fn find_from(s: Seq<char>, pat: Seq<char>, from: int) -> Option<int>
    decreases s.len() + 1 - from,
{
    if from + pat.len() > s.len() {
        None
    } else if s.subrange(from, from + pat.len()) == pat {
        Some(from)
    } else {
        find_from(s, pat, from + 1)
    }
}

/// The first position where `pat` occurs in `s`.
pub open spec fn find(s: Seq<char>, pat: Seq<char>) -> Option<int> {
    find_from(s, pat, 0)
}

/// `pat` occurs somewhere in `s`.
pub open spec fn contains(s: Seq<char>, pat: Seq<char>) -> bool {
    find(s, pat) is Some
}

/// `s` from the first occurrence of `pat` on.
pub open spec fn starting_at(s: Seq<char>, pat: Seq<char>) -> Option<Seq<char>> {
    match find(s, pat) {
        Some(i) => Some(s.skip(i)),
        None => None,
    }
}

/// What stands in `s` behind the first occurrence of `pat`.
pub open spec fn behind(s: Seq<char>, pat: Seq<char>) -> Option<Seq<char>> {
    match find(s, pat) {
        Some(i) => Some(s.skip(i + pat.len())),
        None => None,
    }
}

/// What stands in `s` before the first occurrence of `pat`.
pub open spec fn until(s: Seq<char>, pat: Seq<char>) -> Option<Seq<char>> {
    match find(s, pat) {
        Some(i) => Some(s.take(i)),
        None => None,
    }
}

/// `s` without its leading white space.
pub open spec fn trim_start(s: Seq<char>) -> Seq<char>
    decreases s.len(),
{
    if s.len() > 0 && is_white(s[0]) {
        trim_start(s.drop_first())
    } else {
        s
    }
}

/// `s` without its trailing white space.
pub open spec fn trim_end(s: Seq<char>) -> Seq<char>
    decreases s.len(),
{
    if s.len() > 0 && is_white(s.last()) {
        trim_end(s.drop_last())
    } else {
        s
    }
}

/// `s` without white space at either end.
pub open spec fn trim(s: Seq<char>) -> Seq<char> {
    trim_end(trim_start(s))
}

/// `s` without the `c`s at its end.
pub open spec fn trim_end_char(s: Seq<char>, c: char) -> Seq<char>
    decreases s.len(),
{
    if s.len() > 0 && s.last() == c {
        trim_end_char(s.drop_last(), c)
    } else {
        s
    }
}

/// The pieces of `s` between the occurrences of `pat`, which is not empty.
pub open spec fn split_on(s: Seq<char>, pat: Seq<char>) -> Seq<Seq<char>>
    decreases s.len(),
{
    match find(s, pat) {
        Some(i) if 0 <= i && i + pat.len() <= s.len() && pat.len() > 0 => seq![s.take(i)]
            + split_on(s.skip(i + pat.len()), pat),
        _ => seq![s],
    }
}

/// `line` without one carriage return at its end.
pub open spec fn strip_carriage_return(line: Seq<char>) -> Seq<char> {
    if line.len() > 0 && line.last() == '\r' {
        line.drop_last()
    } else {
        line
    }
}

/// The lines of `s`, each ended by a line feed or by the end of the text.
///
/// A carriage return before the line feed belongs to the line ending, and the empty text after a
/// final line feed is no line.
pub open spec fn lines(s: Seq<char>) -> Seq<Seq<char>>
    decreases s.len(),
{
    if s.len() == 0 {
        seq![]
    } else {
        match find(s, seq!['\n']) {
            Some(i) if 0 <= i < s.len() => seq![strip_carriage_return(s.take(i))] + lines(
                s.skip(i + 1),
            ),
            _ => seq![s],
        }
    }
}

/// The number of characters before the first white space.
pub open spec fn word_len(s: Seq<char>) -> nat
    decreases s.len(),
{
    if s.len() == 0 || is_white(s[0]) {
        0
    } else {
        1 + word_len(s.drop_first())
    }
}

/// The maximal runs of characters that are not white space, in order.
pub open spec fn words(s: Seq<char>) -> Seq<Seq<char>>
    decreases s.len(),
{
    if s.len() == 0 {
        seq![]
    } else if is_white(s[0]) {
        words(s.drop_first())
    } else if word_len(s) <= s.len() {
        seq![s.take(word_len(s) as int)] + words(s.skip(word_len(s) as int))
    } else {
        seq![]
    }
}

/// `s` with every occurrence of `from`, which is not empty, replaced by `to`.
pub open spec fn replace(s: Seq<char>, from: Seq<char>, to: Seq<char>) -> Seq<char>
    decreases s.len(),
{
    match find(s, from) {
        Some(i) if 0 <= i && i + from.len() <= s.len() && from.len() > 0 => s.take(i) + to
            + replace(s.skip(i + from.len()), from, to),
        _ => s,
    }
}

/// The texts with `sep` between them.
pub open spec fn joined(parts: Seq<Seq<char>>, sep: Seq<char>) -> Seq<char>
    decreases parts.len(),
{
    if parts.len() == 0 {
        seq![]
    } else if parts.len() == 1 {
        parts[0]
    } else {
        joined(parts.drop_last(), sep) + sep + parts.last()
    }
}

/// `s` with spaces behind it up to a width of `n` characters.
pub open spec fn padded(s: Seq<char>, n: nat) -> Seq<char>
    decreases n - s.len(),
{
    if s.len() >= n {
        s
    } else {
        padded(s.push(' '), n)
    }
}

/// The ASCII letter `c` in lower case; any other character itself.
pub open spec fn lower_char(c: char) -> char {
    if 'A' <= c <= 'Z' {
        (c as u32 + 32) as char
    } else {
        c
    }
}

/// `s` with its ASCII letters in lower case.
pub open spec fn lower(s: Seq<char>) -> Seq<char> {
    s.map_values(|c: char| lower_char(c))
}

/// `c` is a hexadecimal digit of ASCII.
pub open spec fn is_hex_digit(c: char) -> bool {
    '0' <= c <= '9' || 'a' <= c <= 'f' || 'A' <= c <= 'F'
}

/// The texts that a vector of strings holds.
pub open spec fn texts(v: Seq<String>) -> Seq<Seq<char>> {
    v.map_values(|s: String| s@)
}

/// The text that an optional string holds.
pub open spec fn opt_text(o: Option<String>) -> Option<Seq<char>> {
    match o {
        Some(s) => Some(s@),
        None => None,
    }
}

/// The text that an optional string slice holds.
pub open spec fn opt_str(o: Option<&str>) -> Option<Seq<char>> {
    match o {
        Some(s) => Some(s@),
        None => None,
    }
}

/// An optional text, or `other`.
pub open spec fn given_or(o: Option<Seq<char>>, other: Seq<char>) -> Seq<char> {
    match o {
        Some(s) => s,
        None => other,
    }
}

// ---------------------------------------------------------------------------------------------
// Lemmas

/// What `find_from` returns is the first occurrence at or after `from`.
pub proof fn lemma_find_from(s: Seq<char>, pat: Seq<char>, from: int)
    requires
        0 <= from,
    ensures
        match find_from(s, pat, from) {
            Some(i) => from <= i && occurs_at(s, pat, i) && forall|j: int|
                from <= j < i ==> !occurs_at(s, pat, j),
            None => forall|j: int| from <= j ==> !occurs_at(s, pat, j),
        },
    decreases s.len() + 1 - from,
{
    if from + pat.len() > s.len() {
    } else if s.subrange(from, from + pat.len()) == pat {
    } else {
        lemma_find_from(s, pat, from + 1);
    }
}

/// Searching in the rest of a text is searching in the text from there on.
pub proof fn lemma_find_skip(s: Seq<char>, pat: Seq<char>, k: int, from: int)
    requires
        0 <= k <= s.len(),
        0 <= from,
    ensures
        find_from(s.skip(k), pat, from) == match find_from(s, pat, k + from) {
            Some(i) => Some(i - k),
            None => None,
        },
    decreases s.len() + 1 - k - from,
{
    let t = s.skip(k);
    if from + pat.len() > t.len() {
    } else {
        assert(t.subrange(from, from + pat.len()) =~= s.subrange(
            k + from,
            k + from + pat.len(),
        ));
        if t.subrange(from, from + pat.len()) == pat {
        } else {
            lemma_find_skip(s, pat, k, from + 1);
        }
    }
}

/// What stands behind a pattern is shorter than the text by the pattern at least.
pub proof fn lemma_behind(s: Seq<char>, pat: Seq<char>)
    ensures
        behind(s, pat) matches Some(rest) ==> rest.len() + pat.len() <= s.len(),
{
    lemma_find_from(s, pat, 0);
}

pub proof fn lemma_texts_push(v: Seq<String>, s: String)
    ensures
        texts(v.push(s)) == texts(v).push(s@),
{
    assert(texts(v.push(s)) =~= texts(v).push(s@));
}

pub proof fn lemma_word_len(s: Seq<char>)
    ensures
        word_len(s) <= s.len(),
        forall|j: int| 0 <= j < word_len(s) ==> !is_white(#[trigger] s[j]),
        word_len(s) < s.len() ==> is_white(s[word_len(s) as int]),
        s.len() > 0 && !is_white(s[0]) ==> word_len(s) > 0,
    decreases s.len(),
{
    if s.len() == 0 || is_white(s[0]) {
    } else {
        let t = s.drop_first();
        lemma_word_len(t);
        assert forall|j: int| 0 <= j < word_len(s) implies !is_white(#[trigger] s[j]) by {
            if j > 0 {
                assert(t[j - 1] == s[j]);
            }
        }
        if word_len(s) < s.len() {
            assert(t[word_len(t) as int] == s[word_len(s) as int]);
        }
    }
}

/// The word at the start of a text ends where its first white space stands.
pub proof fn lemma_word_len_is(s: Seq<char>, k: int)
    requires
        0 <= k <= s.len(),
        forall|j: int| 0 <= j < k ==> !is_white(#[trigger] s[j]),
        k < s.len() ==> is_white(s[k]),
    ensures
        word_len(s) == k,
{
    lemma_word_len(s);
    if word_len(s) < k {
        assert(is_white(s[word_len(s) as int]));
    } else if word_len(s) > k {
        assert(!is_white(s[k]));
    }
}

// ---------------------------------------------------------------------------------------------
// Executable text functions

/// The characters of `s`.
pub fn chars_of(s: &str) -> (out: Vec<char>)
    ensures
        out@ == s@,
{
    let mut out: Vec<char> = Vec::new();
    for c in it: s.chars()
        invariant
            out@ == it.seq().take(it.index()),
            it.seq() == s@,
    {
        out.push(c);
    }
    out
}

/// The string of the characters of `chars` from `from` up to `to`.
pub fn slice_string(chars: &Vec<char>, from: usize, to: usize) -> (out: String)
    requires
        from <= to <= chars@.len(),
    ensures
        out@ == chars@.subrange(from as int, to as int),
{
    let mut out: String = String::new();
    let mut i: usize = from;
    while i < to
        invariant
            from <= i <= to <= chars@.len(),
            out@ == chars@.subrange(from as int, i as int),
        decreases to - i,
    {
        out.push(chars[i]);
        i = i + 1;
        assert(chars@.subrange(from as int, i as int) =~= chars@.subrange(
            from as int,
            i - 1,
        ).push(chars@[i - 1]));
    }
    out
}

/// Whether `c` is white space.
pub fn is_white_char(c: char) -> (r: bool)
    ensures
        r == is_white(c),
{
    ('\u{9}' <= c && c <= '\u{d}') || c == ' ' || c == '\u{85}' || c == '\u{a0}' || c == '\u{1680}'
        || ('\u{2000}' <= c && c <= '\u{200a}') || c == '\u{2028}' || c == '\u{2029}' || c
        == '\u{202f}' || c == '\u{205f}' || c == '\u{3000}'
}

/// Whether `pat` stands in `s` at position `at`.
fn matches_at(s: &Vec<char>, pat: &Vec<char>, at: usize) -> (r: bool)
    requires
        at + pat@.len() <= s@.len(),
    ensures
        r == (s@.subrange(at as int, at + pat@.len()) == pat@),
{
    let n: usize = s.len();
    let mut j: usize = 0;
    while j < pat.len()
        invariant
            j <= pat@.len(),
            at + pat@.len() <= s@.len(),
            n == s@.len(),
            forall|k: int| 0 <= k < j ==> s@[at + k] == pat@[k],
        decreases pat@.len() - j,
    {
        if s[at + j] != pat[j] {
            assert(s@.subrange(at as int, at + pat@.len())[j as int] != pat@[j as int]);
            return false;
        }
        j = j + 1;
    }
    assert(s@.subrange(at as int, at + pat@.len()) =~= pat@);
    true
}

/// The first position at or after `from` where `pat` occurs in `s`.
pub fn find_chars(s: &Vec<char>, pat: &Vec<char>, from: usize) -> (r: Option<usize>)
    requires
        from <= s@.len(),
    ensures
        match r {
            Some(i) => find_from(s@, pat@, from as int) == Some(i as int) && from <= i && i
                + pat@.len() <= s@.len(),
            None => find_from(s@, pat@, from as int) is None,
        },
{
    if pat.len() > s.len() {
        return None;
    }
    let last: usize = s.len() - pat.len();
    let mut i: usize = from;
    while i <= last
        invariant
            from <= i <= s@.len(),
            last + pat@.len() == s@.len(),
            find_from(s@, pat@, from as int) == find_from(s@, pat@, i as int),
        decreases s@.len() + 1 - i,
    {
        if matches_at(s, pat, i) {
            return Some(i);
        }
        if i == last {
            assert(find_from(s@, pat@, i + 1) is None);
            return None;
        }
        i = i + 1;
    }
    None
}

/// Whether `pat` occurs in `s` at position `i`.
pub fn occurs_at_of(s: &Vec<char>, pat: &Vec<char>, i: usize) -> (r: bool)
    requires
        i <= s@.len(),
    ensures
        r == occurs_at(s@, pat@, i as int),
{
    pat.len() <= s.len() - i && matches_at(s, pat, i)
}

/// The first position, counted in characters, where `pat` occurs in `s`.
pub fn find_str(s: &str, pat: &str) -> (r: Option<usize>)
    ensures
        match r {
            Some(i) => find(s@, pat@) == Some(i as int) && i + pat@.len() <= s@.len(),
            None => find(s@, pat@) is None,
        },
{
    find_chars(&chars_of(s), &chars_of(pat), 0)
}

/// `s` from the first occurrence of `pat` on.
pub fn starting_at_str(s: &str, pat: &str) -> (r: Option<String>)
    ensures
        opt_text(r) == starting_at(s@, pat@),
{
    let a: Vec<char> = chars_of(s);
    match find_chars(&a, &chars_of(pat), 0) {
        Some(i) => {
            assert(a@.subrange(i as int, a@.len() as int) =~= a@.skip(i as int));
            Some(slice_string(&a, i, a.len()))
        },
        None => None,
    }
}

/// What stands in `s` behind the first occurrence of `pat`.
pub fn behind_str(s: &str, pat: &str) -> (r: Option<String>)
    ensures
        opt_text(r) == behind(s@, pat@),
{
    let a: Vec<char> = chars_of(s);
    let p: Vec<char> = chars_of(pat);
    let n: usize = a.len();
    match find_chars(&a, &p, 0) {
        Some(i) => {
            assert(a@.subrange(i + p@.len(), n as int) =~= a@.skip(i + p@.len()));
            Some(slice_string(&a, i + p.len(), n))
        },
        None => None,
    }
}

/// What stands in `s` before the first occurrence of `pat`.
pub fn until_str(s: &str, pat: &str) -> (r: Option<String>)
    ensures
        opt_text(r) == until(s@, pat@),
{
    let a: Vec<char> = chars_of(s);
    match find_chars(&a, &chars_of(pat), 0) {
        Some(i) => {
            assert(a@.subrange(0, i as int) =~= a@.take(i as int));
            Some(slice_string(&a, 0, i))
        },
        None => None,
    }
}

/// Whether `pat` occurs in `s`.
pub fn contains_str(s: &str, pat: &str) -> (r: bool)
    ensures
        r == contains(s@, pat@),
{
    find_str(s, pat).is_some()
}

/// Whether `s` begins with `prefix`.
pub fn starts_with_str(s: &str, prefix: &str) -> (r: bool)
    ensures
        r == starts_with(s@, prefix@),
{
    let a: Vec<char> = chars_of(s);
    let b: Vec<char> = chars_of(prefix);
    if b.len() > a.len() {
        return false;
    }
    assert(a@.subrange(0, b@.len() as int) =~= a@.take(b@.len() as int));
    matches_at(&a, &b, 0)
}

/// Whether `s` ends with `suffix`.
pub fn ends_with_str(s: &str, suffix: &str) -> (r: bool)
    ensures
        r == ends_with(s@, suffix@),
{
    let a: Vec<char> = chars_of(s);
    let b: Vec<char> = chars_of(suffix);
    if b.len() > a.len() {
        return false;
    }
    let at: usize = a.len() - b.len();
    assert(a@.subrange(at as int, at + b@.len()) =~= a@.skip(at as int));
    matches_at(&a, &b, at)
}

/// What follows `prefix` in `s`, where `s` begins with it.
pub fn strip_prefix_str(s: &str, prefix: &str) -> (r: Option<String>)
    ensures
        r is Some <==> starts_with(s@, prefix@),
        r matches Some(rest) ==> rest@ == s@.skip(prefix@.len() as int),
{
    if starts_with_str(s, prefix) {
        let a: Vec<char> = chars_of(s);
        let n: usize = prefix.unicode_len();
        assert(a@.subrange(n as int, a@.len() as int) =~= a@.skip(n as int));
        Some(slice_string(&a, n, a.len()))
    } else {
        None
    }
}

/// Whether two texts are the same.
pub fn same_text(a: &str, b: &str) -> (r: bool)
    ensures
        r == (a@ == b@),
{
    let x: Vec<char> = chars_of(a);
    let y: Vec<char> = chars_of(b);
    if x.len() != y.len() {
        return false;
    }
    assert(x@.subrange(0, y@.len() as int) =~= x@);
    matches_at(&x, &y, 0)
}

/// A copy of `s`.
pub fn owned(s: &str) -> (r: String)
    ensures
        r@ == s@,
{
    s.to_owned()
}

/// `s` without white space at either end.
pub fn trim_str(s: &str) -> (r: String)
    ensures
        r@ == trim(s@),
{
    let a: Vec<char> = chars_of(s);
    let mut i: usize = 0;
    assert(a@.skip(0) =~= a@);
    while i < a.len() && is_white_char(a[i])
        invariant
            i <= a@.len(),
            trim_start(a@) == trim_start(a@.skip(i as int)),
        decreases a@.len() - i,
    {
        assert(a@.skip(i as int).drop_first() =~= a@.skip(i + 1));
        i = i + 1;
    }
    let mut j: usize = a.len();
    let ghost t = a@.skip(i as int);
    assert(trim_start(a@) == t);
    assert(a@.subrange(i as int, j as int) =~= t);
    while j > i && is_white_char(a[j - 1])
        invariant
            i <= j <= a@.len(),
            trim_end(t) == trim_end(a@.subrange(i as int, j as int)),
        decreases j,
    {
        assert(a@.subrange(i as int, j as int).drop_last() =~= a@.subrange(i as int, j - 1));
        j = j - 1;
    }
    slice_string(&a, i, j)
}

/// `s` without the `c`s at its end.
pub fn trim_end_char_of(s: &str, c: char) -> (r: String)
    ensures
        r@ == trim_end_char(s@, c),
{
    let a: Vec<char> = chars_of(s);
    let mut j: usize = a.len();
    assert(a@.take(j as int) =~= a@);
    while j > 0 && a[j - 1] == c
        invariant
            j <= a@.len(),
            trim_end_char(a@, c) == trim_end_char(a@.take(j as int), c),
        decreases j,
    {
        assert(a@.take(j as int).drop_last() =~= a@.take(j - 1));
        j = j - 1;
    }
    assert(a@.subrange(0, j as int) =~= a@.take(j as int));
    slice_string(&a, 0, j)
}

/// The lines of `s`.
pub fn lines_of(s: &str) -> (out: Vec<String>)
    ensures
        texts(out@) == lines(s@),
{
    let a: Vec<char> = chars_of(s);
    let nl: Vec<char> = vec!['\n'];
    assert(nl@ =~= seq!['\n']);
    let mut out: Vec<String> = Vec::new();
    let mut i: usize = 0;
    assert(a@.skip(0) =~= a@);
    assert(texts(out@) =~= seq![]);
    while i < a.len()
        invariant
            i <= a@.len(),
            nl@ == seq!['\n'],
            lines(a@) == texts(out@) + lines(a@.skip(i as int)),
        decreases a@.len() - i,
    {
        let ghost rest = a@.skip(i as int);
        proof {
            lemma_find_skip(a@, nl@, i as int, 0);
        }
        match find_chars(&a, &nl, i) {
            Some(k) => {
                let mut end: usize = k;
                if k > i && a[k - 1] == '\r' {
                    end = k - 1;
                }
                let line: String = slice_string(&a, i, end);
                proof {
                    let raw = rest.take(k - i);
                    assert(raw =~= a@.subrange(i as int, k as int));
                    if k > i {
                        assert(raw.last() == a@[k - 1]);
                    }
                    assert(raw.drop_last() =~= a@.subrange(i as int, k - 1) || k == i);
                    assert(line@ == strip_carriage_return(raw));
                    assert(rest.skip(k - i + 1) =~= a@.skip(k + 1));
                    lemma_texts_push(out@, line);
                    assert(texts(out@) + (seq![line@] + lines(a@.skip(k + 1))) =~= texts(
                        out@,
                    ).push(line@) + lines(a@.skip(k + 1)));
                }
                out.push(line);
                i = k + 1;
            },
            None => {
                let line: String = slice_string(&a, i, a.len());
                proof {
                    assert(a@.subrange(i as int, a@.len() as int) =~= rest);
                    lemma_texts_push(out@, line);
                    assert(lines(a@.skip(a@.len() as int)) =~= seq![]);
                    assert(texts(out@) + seq![line@] =~= texts(out@).push(line@) + seq![]);
                }
                out.push(line);
                i = a.len();
            },
        }
    }
    assert(lines(a@.skip(i as int)) =~= seq![]);
    assert(texts(out@) + seq![] =~= texts(out@));
    out
}

/// The words of `s`.
pub fn words_of(s: &str) -> (out: Vec<String>)
    ensures
        texts(out@) == words(s@),
{
    let a: Vec<char> = chars_of(s);
    let mut out: Vec<String> = Vec::new();
    let mut i: usize = 0;
    assert(a@.skip(0) =~= a@);
    assert(texts(out@) =~= seq![]);
    while i < a.len()
        invariant
            i <= a@.len(),
            words(a@) == texts(out@) + words(a@.skip(i as int)),
        decreases a@.len() - i,
    {
        let ghost rest = a@.skip(i as int);
        if is_white_char(a[i]) {
            assert(rest.drop_first() =~= a@.skip(i + 1));
            i = i + 1;
        } else {
            let start: usize = i;
            let mut j: usize = i + 1;
            while j < a.len() && !is_white_char(a[j])
                invariant
                    start < j <= a@.len(),
                    forall|k: int| start <= k < j ==> !is_white(#[trigger] a@[k]),
                decreases a@.len() - j,
            {
                j = j + 1;
            }
            let word: String = slice_string(&a, start, j);
            proof {
                assert forall|k: int| 0 <= k < j - start implies !is_white(#[trigger] rest[k]) by {
                    assert(rest[k] == a@[start + k]);
                }
                lemma_word_len_is(rest, j - start);
                assert(rest.take(j - start) =~= word@);
                assert(rest.skip(j - start) =~= a@.skip(j as int));
                lemma_texts_push(out@, word);
                assert(texts(out@) + (seq![word@] + words(a@.skip(j as int))) =~= texts(out@).push(
                    word@,
                ) + words(a@.skip(j as int)));
            }
            out.push(word);
            i = j;
        }
    }
    assert(words(a@.skip(i as int)) =~= seq![]);
    assert(texts(out@) + seq![] =~= texts(out@));
    out
}

/// The pieces of `s` between the occurrences of `pat`.
pub fn split_str(s: &str, pat: &str) -> (out: Vec<String>)
    requires
        pat@.len() > 0,
    ensures
        texts(out@) == split_on(s@, pat@),
{
    let a: Vec<char> = chars_of(s);
    let n: usize = a.len();
    let p: Vec<char> = chars_of(pat);
    let mut out: Vec<String> = Vec::new();
    let mut i: usize = 0;
    assert(a@.skip(0) =~= a@);
    assert(texts(out@) =~= seq![]);
    loop
        invariant
            i <= n == a@.len(),
            p@ == pat@,
            p@.len() > 0,
            split_on(a@, p@) == texts(out@) + split_on(a@.skip(i as int), p@),
            a@ == s@,
        decreases a@.len() - i,
    {
        let ghost rest = a@.skip(i as int);
        proof {
            lemma_find_skip(a@, p@, i as int, 0);
        }
        match find_chars(&a, &p, i) {
            Some(k) => {
                let piece: String = slice_string(&a, i, k);
                proof {
                    assert(piece@ =~= rest.take(k - i));
                    assert(rest.skip(k - i + p@.len()) =~= a@.skip(k + p@.len()));
                    lemma_texts_push(out@, piece);
                    assert(texts(out@) + (seq![piece@] + split_on(a@.skip(k + p@.len()), p@))
                        =~= texts(out@).push(piece@) + split_on(a@.skip(k + p@.len()), p@));
                }
                out.push(piece);
                i = k + p.len();
            },
            None => {
                let piece: String = slice_string(&a, i, a.len());
                proof {
                    assert(piece@ =~= rest);
                    lemma_texts_push(out@, piece);
                    assert(texts(out@) + seq![piece@] =~= texts(out@).push(piece@));
                }
                out.push(piece);
                return out;
            },
        }
    }
}

/// `s` with every occurrence of `from` replaced by `to`.
pub fn replace_str(s: &str, from: &str, to: &str) -> (out: String)
    requires
        from@.len() > 0,
    ensures
        out@ == replace(s@, from@, to@),
{
    let a: Vec<char> = chars_of(s);
    let n: usize = a.len();
    let p: Vec<char> = chars_of(from);
    let mut out: String = String::new();
    let mut i: usize = 0;
    assert(a@.skip(0) =~= a@);
    assert(out@ + replace(a@, p@, to@) =~= replace(a@, p@, to@));
    loop
        invariant
            i <= n == a@.len(),
            p@ == from@,
            p@.len() > 0,
            replace(a@, p@, to@) == out@ + replace(a@.skip(i as int), p@, to@),
            a@ == s@,
        decreases a@.len() - i,
    {
        let ghost rest = a@.skip(i as int);
        let ghost before = out@;
        proof {
            lemma_find_skip(a@, p@, i as int, 0);
        }
        match find_chars(&a, &p, i) {
            Some(k) => {
                let piece: String = slice_string(&a, i, k);
                out.append(piece.as_str());
                out.append(to);
                proof {
                    assert(piece@ =~= rest.take(k - i));
                    assert(rest.skip(k - i + p@.len()) =~= a@.skip(k + p@.len()));
                    let tail = replace(a@.skip(k + p@.len()), p@, to@);
                    assert(before + (piece@ + to@ + tail) =~= before + piece@ + to@ + tail);
                }
                i = k + p.len();
            },
            None => {
                let piece: String = slice_string(&a, i, a.len());
                out.append(piece.as_str());
                assert(piece@ =~= rest);
                return out;
            },
        }
    }
}

/// The ASCII letter `c` in lower case; any other character itself.
pub fn lower_char_of(c: char) -> (r: char)
    ensures
        r == lower_char(c),
{
    match c {
        'A' => 'a',
        'B' => 'b',
        'C' => 'c',
        'D' => 'd',
        'E' => 'e',
        'F' => 'f',
        'G' => 'g',
        'H' => 'h',
        'I' => 'i',
        'J' => 'j',
        'K' => 'k',
        'L' => 'l',
        'M' => 'm',
        'N' => 'n',
        'O' => 'o',
        'P' => 'p',
        'Q' => 'q',
        'R' => 'r',
        'S' => 's',
        'T' => 't',
        'U' => 'u',
        'V' => 'v',
        'W' => 'w',
        'X' => 'x',
        'Y' => 'y',
        'Z' => 'z',
        _ => c,
    }
}

/// `s` with its ASCII letters in lower case.
pub fn lower_str(s: &str) -> (out: String)
    ensures
        out@ == lower(s@),
{
    let mut out: String = String::new();
    for c in it: s.chars()
        invariant
            out@ == lower(it.seq().take(it.index())),
            it.seq() == s@,
    {
        out.push(lower_char_of(c));
        assert(lower(it.seq().take(it.index() + 1)) =~= lower(it.seq().take(it.index())).push(
            lower_char(c),
        ));
    }
    assert(s@.take(s@.len() as int) =~= s@);
    out
}

/// Whether `c` is a hexadecimal digit of ASCII.
pub fn is_hex_char(c: char) -> (r: bool)
    ensures
        r == is_hex_digit(c),
{
    ('0' <= c && c <= '9') || ('a' <= c && c <= 'f') || ('A' <= c && c <= 'F')
}

/// The concatenation of `a` and `b`.
pub fn join2(a: &str, b: &str) -> (out: String)
    ensures
        out@ == a@ + b@,
{
    a.to_owned().concat(b)
}

/// The concatenation of `a`, `b` and `c`.
pub fn join3(a: &str, b: &str, c: &str) -> (out: String)
    ensures
        out@ == a@ + b@ + c@,
{
    a.to_owned().concat(b).concat(c)
}

/// The texts with `sep` between them.
pub fn join_all(parts: &Vec<String>, sep: &str) -> (out: String)
    ensures
        out@ == joined(texts(parts@), sep@),
{
    let ghost model = texts(parts@);
    assert(model.len() == parts@.len());
    let mut out: String = String::new();
    let mut i: usize = 0;
    assert(joined(model.take(0), sep@) =~= seq![]);
    assert(out@ =~= seq![]);
    while i < parts.len()
        invariant
            i <= parts@.len(),
            model == texts(parts@),
            model.len() == parts@.len(),
            out@ == joined(model.take(i as int), sep@),
        decreases parts@.len() - i,
    {
        let ghost before = out@;
        assert(model[i as int] == parts@[i as int]@);
        assert(model.take(i + 1).drop_last() =~= model.take(i as int));
        if i > 0 {
            out.append(sep);
        }
        out.append(parts[i].as_str());
        proof {
            if i == 0 {
                assert(before + parts@[0]@ =~= parts@[0]@);
            }
        }
        i = i + 1;
    }
    assert(model.take(i as int) =~= model);
    out
}

/// An optional text, or `other`.
pub fn text_or(o: &Option<String>, other: &str) -> (out: String)
    ensures
        out@ == given_or(opt_text(*o), other@),
{
    match o {
        Some(s) => s.clone(),
        None => other.to_owned(),
    }
}

/// `s` with spaces behind it up to a width of `n` characters.
pub fn pad(s: &str, n: usize) -> (out: String)
    ensures
        out@ == padded(s@, n as nat),
{
    let mut out: String = s.to_owned();
    let mut k: usize = s.unicode_len();
    while k < n
        invariant
            k == out@.len(),
            padded(s@, n as nat) == padded(out@, n as nat),
        decreases n - k,
    {
        out.push(' ');
        k = k + 1;
    }
    out
}

/// The texts before and behind a place are joined on their own, with the separator between them.
pub proof fn lemma_joined_split(a: Seq<Seq<char>>, b: Seq<Seq<char>>, sep: Seq<char>)
    requires
        a.len() > 0,
        b.len() > 0,
    ensures
        joined(a + b, sep) == joined(a, sep) + sep + joined(b, sep),
    decreases b.len(),
{
    assert((a + b).drop_last() =~= a + b.drop_last());
    assert((a + b).last() == b.last());
    if b.len() == 1 {
        assert(a + b.drop_last() =~= a);
    } else {
        lemma_joined_split(a, b.drop_last(), sep);
        assert(joined(a + b, sep) =~= joined(a, sep) + sep + joined(b, sep));
    }
}

/// `line` is a line of `text`, and neither the first nor the last one.
pub open spec fn has_line(text: Seq<char>, line: Seq<char>) -> bool {
    exists|before: Seq<char>, after: Seq<char>|
        text == #[trigger] (before + "\n"@ + line + "\n"@ + after)
}

/// What stands between other lines is a line of the joined text.
pub proof fn lemma_has_line(lines: Seq<Seq<char>>, k: int)
    requires
        0 < k < lines.len() - 1,
    ensures
        has_line(joined(lines, "\n"@), lines[k]),
{
    let a = lines.take(k);
    let m = seq![lines[k]];
    let b = lines.skip(k + 1);
    assert(lines =~= a + (m + b));
    lemma_joined_split(a, m + b, "\n"@);
    lemma_joined_split(m, b, "\n"@);
    assert(joined(m, "\n"@) == lines[k]);
    assert(joined(lines, "\n"@) =~= joined(a, "\n"@) + "\n"@ + lines[k] + "\n"@ + joined(b, "\n"@));
}

/// `pat` stands in `s` at `i`, and nowhere before.
pub open spec fn first_at(s: Seq<char>, pat: Seq<char>, i: int) -> bool {
    &&& 0 <= i && i + pat.len() <= s.len()
    &&& s.subrange(i, i + pat.len()) == pat
    &&& forall|j: int| 0 <= j < i ==> #[trigger] s.subrange(j, j + pat.len()) != pat
}

/// `pat` stands nowhere in `s`.
pub open spec fn absent(s: Seq<char>, pat: Seq<char>) -> bool {
    forall|j: int|
        0 <= j && j + pat.len() <= s.len() ==> #[trigger] s.subrange(j, j + pat.len()) != pat
}

/// The first occurrence of a pattern parts a text into what stands before it and behind it.
pub proof fn law_find(s: Seq<char>, pat: Seq<char>, i: int)
    ensures
        first_at(s, pat, i) ==> {
            &&& find(s, pat) == Some(i)
            &&& contains(s, pat)
            &&& starting_at(s, pat) == Some(s.subrange(i, s.len() as int))
            &&& behind(s, pat) == Some(s.subrange(i + pat.len(), s.len() as int))
            &&& until(s, pat) == Some(s.subrange(0, i))
        },
        absent(s, pat) ==> {
            &&& find(s, pat) is None
            &&& !contains(s, pat)
            &&& starting_at(s, pat) is None
            &&& behind(s, pat) is None
            &&& until(s, pat) is None
        },
{
    lemma_find_from(s, pat, 0);
    if first_at(s, pat, i) {
        assert(occurs_at(s, pat, i));
        if let Some(k) = find(s, pat) {
            if k < i {
                assert(s.subrange(k, k + pat.len()) != pat);
            }
        }
    }
    if absent(s, pat) {
        if let Some(k) = find(s, pat) {
            assert(s.subrange(k, k + pat.len()) != pat);
        }
    }
}

/// A text is split at the first occurrence of the separator and then further on; a text without it
/// is one piece. Replacing goes on in the same way.
pub proof fn law_split_and_replace(s: Seq<char>, pat: Seq<char>, to: Seq<char>, i: int)
    requires
        pat.len() > 0,
    ensures
        first_at(s, pat, i) ==> {
            &&& split_on(s, pat) == seq![s.subrange(0, i)] + split_on(
                s.subrange(i + pat.len(), s.len() as int),
                pat,
            )
            &&& replace(s, pat, to) == s.subrange(0, i) + to + replace(
                s.subrange(i + pat.len(), s.len() as int),
                pat,
                to,
            )
        },
        absent(s, pat) ==> split_on(s, pat) == seq![s] && replace(s, pat, to) == s,
{
    law_find(s, pat, i);
}

/// What a text begins and ends with.
pub proof fn law_ends(a: Seq<char>, b: Seq<char>, c: Seq<char>)
    ensures
        starts_with(a + b, a),
        ends_with(a + b, b),
        starts_with(c, a) ==> c == a + c.subrange(a.len() as int, c.len() as int),
        ends_with(c, b) ==> c == c.subrange(0, c.len() - b.len()) + b,
{
    assert((a + b).take(a.len() as int) =~= a);
    assert((a + b).skip(a.len() as int) =~= b);
    if starts_with(c, a) {
        assert(c =~= c.take(a.len() as int) + c.subrange(a.len() as int, c.len() as int));
    }
    if ends_with(c, b) {
        assert(c =~= c.subrange(0, c.len() - b.len()) + c.skip(c.len() - b.len()));
    }
}

/// Spaces, tabs and line ends are white; the printable characters of ASCII are not.
pub proof fn law_white(c: char)
    ensures
        c == ' ' || c == '\t' || c == '\n' || c == '\r' ==> is_white(c),
        '!' <= c <= '~' ==> !is_white(c),
{
}

/// Trimming takes away the white space at both ends and nothing else.
pub proof fn law_trim(a: Seq<char>, s: Seq<char>, b: Seq<char>)
    requires
        forall|i: int| 0 <= i < a.len() ==> is_white(#[trigger] a[i]),
        forall|i: int| 0 <= i < b.len() ==> is_white(#[trigger] b[i]),
        s.len() > 0 ==> !is_white(s[0]) && !is_white(s.last()),
    ensures
        trim(a + s + b) == s,
    decreases a.len() + b.len(),
{
    let all = a + s + b;
    if a.len() > 0 {
        assert(is_white(a[0]));
        assert(all[0] == a[0]);
        assert(all.drop_first() =~= a.drop_first() + s + b);
        law_trim(a.drop_first(), s, b);
    } else if s.len() > 0 {
        assert(all[0] == s[0]);
        lemma_trim_end(s, b);
        assert(all =~= s + b);
    } else if b.len() > 0 {
        assert(is_white(b[0]));
        assert(all[0] == b[0]);
        assert(all.drop_first() =~= a + s + b.drop_first());
        law_trim(a, s, b.drop_first());
    } else {
        assert(all =~= s);
    }
}

proof fn lemma_trim_end(s: Seq<char>, b: Seq<char>)
    requires
        s.len() > 0,
        !is_white(s.last()),
        forall|i: int| 0 <= i < b.len() ==> is_white(#[trigger] b[i]),
    ensures
        trim_end(s + b) == s,
    decreases b.len(),
{
    if b.len() > 0 {
        assert((s + b).last() == b[b.len() - 1]);
        assert(is_white(b[b.len() - 1]));
        assert((s + b).drop_last() =~= s + b.drop_last());
        lemma_trim_end(s, b.drop_last());
    } else {
        assert(s + b =~= s);
    }
}

/// The words of a text: a word behind white space comes first, and behind the white space that
/// ends it come those of the rest.
pub proof fn law_words(w: Seq<char>, c: char, rest: Seq<char>)
    requires
        forall|i: int| 0 <= i < w.len() ==> !is_white(#[trigger] w[i]),
        is_white(c),
    ensures
        words(seq![]) == Seq::<Seq<char>>::empty(),
        words(seq![c] + rest) == words(rest),
        w.len() > 0 ==> words(w) == seq![w],
        w.len() > 0 ==> words(w + seq![c] + rest) == seq![w] + words(rest),
{
    assert((seq![c] + rest).drop_first() =~= rest);
    if w.len() > 0 {
        assert(!is_white(w[0]));
        lemma_word_len_is(w, w.len() as int);
        assert(w.take(w.len() as int) =~= w);
        assert(w.skip(w.len() as int) =~= seq![]);
        assert(words(w.skip(w.len() as int)) =~= seq![]);
        assert(words(w) =~= seq![w]);
        let all = w + seq![c] + rest;
        assert forall|j: int| 0 <= j < w.len() implies !is_white(#[trigger] all[j]) by {
            assert(all[j] == w[j]);
        }
        assert(all[w.len() as int] == c);
        lemma_word_len_is(all, w.len() as int);
        assert(all[0] == w[0]);
        assert(all.take(w.len() as int) =~= w);
        assert(all.skip(w.len() as int) =~= seq![c] + rest);
    }
}

/// A line ends at a line feed, before which a carriage return does not count; what stands behind
/// the last line feed is a line where it is not empty.
pub proof fn law_lines(l: Seq<char>, rest: Seq<char>)
    requires
        !l.contains('\n'),
    ensures
        lines(seq![]) == Seq::<Seq<char>>::empty(),
        l.len() > 0 ==> lines(l) == seq![l],
        (l.len() == 0 || l.last() != '\r') ==> lines(l + seq!['\n'] + rest) == seq![l] + lines(rest),
        lines(l + seq!['\r', '\n'] + rest) == seq![l] + lines(rest),
{
    let n = seq!['\n'];
    assert(absent(l, n)) by {
        assert forall|j: int| 0 <= j && j + n.len() <= l.len() implies #[trigger] l.subrange(
            j,
            j + n.len(),
        ) != n by {
            assert(l.subrange(j, j + 1)[0] == l[j]);
            assert(l.contains(l[j]));
        }
    }
    law_find(l, n, 0);
    lemma_line(l, rest);
    assert(l + seq!['\r', '\n'] + rest =~= l.push('\r') + n + rest);
    assert(!l.push('\r').contains('\n')) by {
        if l.push('\r').contains('\n') {
            let j = choose|j: int| 0 <= j < l.push('\r').len() && l.push('\r')[j] == '\n';
            assert(j < l.len());
            assert(l.contains(l[j]));
        }
    }
    lemma_line(l.push('\r'), rest);
    assert(l.push('\r').drop_last() =~= l);
}

proof fn lemma_line(l: Seq<char>, rest: Seq<char>)
    requires
        !l.contains('\n'),
    ensures
        lines(l + seq!['\n'] + rest) == seq![strip_carriage_return(l)] + lines(rest),
{
    let n = seq!['\n'];
    let all = l + n + rest;
    assert(first_at(all, n, l.len() as int)) by {
        assert(all.subrange(l.len() as int, l.len() as int + 1) =~= n);
        assert forall|j: int| 0 <= j < l.len() implies #[trigger] all.subrange(j, j + n.len())
            != n by {
            assert(all.subrange(j, j + 1)[0] == l[j]);
            assert(l.contains(l[j]));
        }
    }
    law_find(all, n, l.len() as int);
    assert(all.take(l.len() as int) =~= l);
    assert(all.skip(l.len() as int + 1) =~= rest);
}

/// Only the letters of ASCII have another lower case, which is 32 places further on.
pub proof fn law_lower(s: Seq<char>, i: int)
    requires
        0 <= i < s.len(),
    ensures
        lower(s).len() == s.len(),
        'A' <= s[i] <= 'Z' ==> lower(s)[i] == (s[i] as u32 + 32) as char,
        !('A' <= s[i] <= 'Z') ==> lower(s)[i] == s[i],
{
}

/// Padding adds spaces behind a text, up to the width and no further.
pub proof fn law_padded(s: Seq<char>, n: nat)
    ensures
        s.len() >= n ==> padded(s, n) == s,
        s.len() < n ==> padded(s, n) == s + Seq::new((n - s.len()) as nat, |i: int| ' '),
    decreases n - s.len(),
{
    if s.len() < n {
        law_padded(s.push(' '), n);
        assert(padded(s, n) =~= s + Seq::new((n - s.len()) as nat, |i: int| ' '));
    }
}

/// Two runs of texts are joined like the texts themselves.
pub proof fn law_joined(a: Seq<Seq<char>>, b: Seq<Seq<char>>, s: Seq<char>, sep: Seq<char>)
    ensures
        joined(seq![], sep) == Seq::<char>::empty(),
        joined(seq![s], sep) == s,
        a.len() > 0 && b.len() > 0 ==> joined(a + b, sep) == joined(a, sep) + sep + joined(b, sep),
{
    if a.len() > 0 && b.len() > 0 {
        lemma_joined_split(a, b, sep);
    }
}

/// What stands behind the last separator is the last piece.
pub proof fn lemma_split_last(a: Seq<char>, c: char, b: Seq<char>)
    requires
        !b.contains(c),
    ensures
        split_on(a + seq![c] + b, seq![c]) == split_on(a, seq![c]).push(b),
        !a.contains(c) ==> split_on(a, seq![c]) == seq![a],
    decreases a.len(),
{
    let sep = seq![c];
    let s = a + sep + b;
    assert(absent(b, sep)) by {
        assert forall|j: int| 0 <= j && j + sep.len() <= b.len() implies #[trigger] b.subrange(
            j,
            j + sep.len(),
        ) != sep by {
            assert(b.subrange(j, j + 1)[0] == b[j]);
            assert(b.contains(b[j]));
        }
    }
    law_split_and_replace(b, sep, sep, 0);
    lemma_find_from(a, sep, 0);
    match find(a, sep) {
        None => {
            assert forall|j: int| 0 <= j < a.len() implies #[trigger] a[j] != c by {
                if a[j] == c {
                    assert(a.subrange(j, j + 1) =~= sep);
                    assert(occurs_at(a, sep, j));
                }
            }
            assert(absent(a, sep)) by {
                assert forall|j: int|
                    0 <= j && j + sep.len() <= a.len() implies #[trigger] a.subrange(
                    j,
                    j + sep.len(),
                ) != sep by {
                    assert(a.subrange(j, j + 1)[0] == a[j]);
                }
            }
            law_split_and_replace(a, sep, sep, 0);
            let n = a.len() as int;
            assert(first_at(s, sep, n)) by {
                assert(s.subrange(n, n + 1) =~= sep);
                assert forall|j: int| 0 <= j < n implies #[trigger] s.subrange(j, j + sep.len())
                    != sep by {
                    assert(s.subrange(j, j + 1)[0] == a[j]);
                }
            }
            law_split_and_replace(s, sep, sep, n);
            assert(s.subrange(0, n) =~= a);
            assert(s.subrange(n + 1, s.len() as int) =~= b);
            assert(seq![a] + seq![b] =~= seq![a].push(b));
        },
        Some(i) => {
            assert(a.contains(c)) by {
                assert(a.subrange(i, i + 1)[0] == a[i]);
            }
            assert(first_at(a, sep, i)) by {
                assert forall|j: int| 0 <= j < i implies #[trigger] a.subrange(j, j + sep.len())
                    != sep by {
                    assert(!occurs_at(a, sep, j));
                }
            }
            assert(first_at(s, sep, i)) by {
                assert(s.subrange(i, i + 1) =~= a.subrange(i, i + 1));
                assert forall|j: int| 0 <= j < i implies #[trigger] s.subrange(j, j + sep.len())
                    != sep by {
                    assert(s.subrange(j, j + 1) =~= a.subrange(j, j + 1));
                }
            }
            law_split_and_replace(a, sep, sep, i);
            law_split_and_replace(s, sep, sep, i);
            let rest = a.subrange(i + 1, a.len() as int);
            assert(s.subrange(i + 1, s.len() as int) =~= rest + sep + b);
            lemma_split_last(rest, c, b);
            assert(s.subrange(0, i) =~= a.subrange(0, i));
            assert((seq![a.subrange(0, i)] + split_on(rest, sep)).push(b) =~= seq![a.subrange(0, i)]
                + split_on(rest, sep).push(b));
        },
    }
}

/// Any number of `c`s at the end is taken away, and nothing else.
pub proof fn law_trim_end_char(s: Seq<char>, c: char)
    ensures
        trim_end_char(s.push(c), c) == trim_end_char(s, c),
        s.len() == 0 || s.last() != c ==> trim_end_char(s, c) == s,
{
    assert(s.push(c).drop_last() =~= s);
}

} // verus!

//! Documents as rows of nodes.

use crate::text;
use vstd::prelude::*;

verus! {

/// A node of a document.
#[derive(Debug, Clone)]
pub struct XmlNode {
    /// The position of the parent in the row.
    pub parent: Option<usize>,
    pub element: bool,
    /// The name of an element without its namespace; empty for other nodes.
    pub tag: String,
    /// The text of a text node or comment; of an element the text of its first child, where that
    /// is a text node.
    pub text: Option<String>,
}

/// The model of an [`XmlNode`].
pub struct XmlNodeView {
    pub parent: Option<usize>,
    pub element: bool,
    pub tag: Seq<char>,
    pub text: Option<Seq<char>>,
}

impl View for XmlNode {
    type V = XmlNodeView;

    open spec fn view(&self) -> XmlNodeView {
        XmlNodeView {
            parent: self.parent,
            element: self.element,
            tag: self.tag@,
            text: text::opt_text(self.text),
        }
    }
}

/// The models of a row of nodes.
pub open spec fn node_views(v: Seq<XmlNode>) -> Seq<XmlNodeView> {
    v.map_values(|n: XmlNode| n@)
}

/// The model of the nodes of a text that may be no document.
pub open spec fn opt_node_views(v: Option<Vec<XmlNode>>) -> Option<Seq<XmlNodeView>> {
    match v {
        Some(v) => Some(node_views(v@)),
        None => None,
    }
}

// ---------------------------------------------------------------------------------------------
// How deep a text goes

/// How many elements of a document may be open at a time. The parser takes some kilobytes of the
/// stack for each, and a thread has two megabytes or more.
pub const OPEN_LIMIT: usize = 128;

/// The end of the tag from `from` on: the first `>` that does not stand in quotes. `quote` is the
/// one that is open at `from`.
pub open spec fn tag_end(text: Seq<char>, from: int, quote: Option<char>) -> Option<int>
    decreases text.len() - from,
{
    if from >= text.len() {
        None
    } else {
        let c = text[from];
        match quote {
            Some(q) => tag_end(
                text,
                from + 1,
                if c == q {
                    None
                } else {
                    quote
                },
            ),
            None => if c == '>' {
                Some(from)
            } else {
                tag_end(
                    text,
                    from + 1,
                    if c == '"' || c == '\'' {
                        Some(c)
                    } else {
                        None
                    },
                )
            },
        }
    }
}

pub proof fn lemma_tag_end(text: Seq<char>, from: int, quote: Option<char>)
    ensures
        tag_end(text, from, quote) matches Some(e) ==> from <= e < text.len(),
    decreases text.len() - from,
{
    if from < text.len() {
        lemma_tag_end(text, from + 1, None);
        lemma_tag_end(text, from + 1, Some('"'));
        lemma_tag_end(text, from + 1, Some('\''));
        lemma_tag_end(text, from + 1, quote);
    }
}

/// The position behind the first `end` at or after `from`; the end of the text where there is none.
pub open spec fn behind_from(text: Seq<char>, end: Seq<char>, from: int) -> int {
    match text::find_from(text, end, from) {
        Some(e) => e + end.len(),
        None => text.len() as int,
    }
}

pub proof fn lemma_behind_from(text: Seq<char>, end: Seq<char>, from: int)
    requires
        0 <= from <= text.len(),
    ensures
        from <= behind_from(text, end, from) <= text.len(),
{
    text::lemma_find_from(text, end, from);
}

/// From `from` on, where `open` elements are open, the text does not go too deep.
///
/// A start tag opens an element, an end tag closes one, and a tag that ends in `/>` does both. What
/// stands in comments, in sections of character data and in instructions is no tag. At another `<!`
/// and where a tag or one of those does not end, a parser gives up; behind the end of the first
/// element it opens no other one. Names are not looked at.
pub open spec fn shallow_from(text: Seq<char>, from: int, open: nat) -> bool
    decreases text.len() - from,
{
    if from < 0 || from >= text.len() {
        true
    } else if text[from] != '<' {
        shallow_from(text, from + 1, open)
    } else if text::occurs_at(text, "<!--"@, from) {
        proof {
            reveal_strlit("<!--");
            lemma_behind_from(text, "-->"@, from + 4);
        }
        shallow_from(text, behind_from(text, "-->"@, from + 4), open)
    } else if text::occurs_at(text, "<![CDATA["@, from) {
        proof {
            reveal_strlit("<![CDATA[");
            lemma_behind_from(text, "]]>"@, from + 9);
        }
        shallow_from(text, behind_from(text, "]]>"@, from + 9), open)
    } else if text::occurs_at(text, "<?"@, from) {
        proof {
            reveal_strlit("<?");
            lemma_behind_from(text, "?>"@, from + 2);
        }
        shallow_from(text, behind_from(text, "?>"@, from + 2), open)
    } else if text::occurs_at(text, "<!"@, from) {
        true
    } else if text::occurs_at(text, "</"@, from) {
        open <= 1 || shallow_from(text, from + 1, (open - 1) as nat)
    } else {
        proof {
            lemma_tag_end(text, from + 1, None);
        }
        open < OPEN_LIMIT && match tag_end(text, from + 1, None) {
            Some(e) => if text[e - 1] == '/' {
                open == 0 || shallow_from(text, e + 1, open)
            } else {
                shallow_from(text, e + 1, open + 1)
            },
            None => true,
        }
    }
}

/// No more than [`OPEN_LIMIT`] elements of the text are open at a time.
pub open spec fn shallow(text: Seq<char>) -> bool {
    shallow_from(text, 0, 0)
}

fn tag_end_of(text: &Vec<char>, from: usize) -> (r: Option<usize>)
    requires
        from <= text@.len(),
    ensures
        match r {
            Some(e) => tag_end(text@, from as int, None) == Some(e as int) && from <= e
                < text@.len(),
            None => tag_end(text@, from as int, None) is None,
        },
{
    let mut quote: Option<char> = None;
    let mut i: usize = from;
    while i < text.len()
        invariant
            from <= i <= text@.len(),
            tag_end(text@, from as int, None) == tag_end(text@, i as int, quote),
        decreases text@.len() - i,
    {
        let c: char = text[i];
        match quote {
            Some(q) => {
                if c == q {
                    quote = None;
                }
            },
            None => {
                if c == '>' {
                    return Some(i);
                }
                if c == '"' || c == '\'' {
                    quote = Some(c);
                }
            },
        }
        i = i + 1;
    }
    None
}

fn behind_from_of(text: &Vec<char>, end: &Vec<char>, from: usize) -> (r: usize)
    requires
        from <= text@.len(),
    ensures
        r == behind_from(text@, end@, from as int),
        from <= r <= text@.len(),
{
    let n: usize = text.len();
    match text::find_chars(text, end, from) {
        Some(e) => e + end.len(),
        None => n,
    }
}

/// Whether no more than [`OPEN_LIMIT`] elements of the text are open at a time.
pub fn shallow_of(text: &str) -> (r: bool)
    ensures
        r == shallow(text@),
{
    proof {
        reveal_strlit("<!--");
        reveal_strlit("<![CDATA[");
        reveal_strlit("<?");
    }
    let chars: Vec<char> = text::chars_of(text);
    let comment: Vec<char> = text::chars_of("<!--");
    let comment_end: Vec<char> = text::chars_of("-->");
    let data: Vec<char> = text::chars_of("<![CDATA[");
    let data_end: Vec<char> = text::chars_of("]]>");
    let instruction: Vec<char> = text::chars_of("<?");
    let instruction_end: Vec<char> = text::chars_of("?>");
    let other: Vec<char> = text::chars_of("<!");
    let end: Vec<char> = text::chars_of("</");
    let mut i: usize = 0;
    let mut open: usize = 0;
    while i < chars.len()
        invariant
            chars@ == text@,
            comment@ == "<!--"@ && comment@.len() == 4,
            comment_end@ == "-->"@,
            data@ == "<![CDATA["@ && data@.len() == 9,
            data_end@ == "]]>"@,
            instruction@ == "<?"@ && instruction@.len() == 2,
            instruction_end@ == "?>"@,
            other@ == "<!"@,
            end@ == "</"@,
            i <= chars@.len(),
            open <= OPEN_LIMIT,
            shallow(text@) == shallow_from(text@, i as int, open as nat),
        decreases chars@.len() - i,
    {
        if chars[i] != '<' {
            i = i + 1;
        } else if text::occurs_at_of(&chars, &comment, i) {
            i = behind_from_of(&chars, &comment_end, i + 4);
        } else if text::occurs_at_of(&chars, &data, i) {
            i = behind_from_of(&chars, &data_end, i + 9);
        } else if text::occurs_at_of(&chars, &instruction, i) {
            i = behind_from_of(&chars, &instruction_end, i + 2);
        } else if text::occurs_at_of(&chars, &other, i) {
            return true;
        } else if text::occurs_at_of(&chars, &end, i) {
            if open <= 1 {
                return true;
            }
            open = open - 1;
            i = i + 1;
        } else {
            if open >= OPEN_LIMIT {
                return false;
            }
            match tag_end_of(&chars, i + 1) {
                Some(e) => {
                    if chars[e - 1] == '/' {
                        if open == 0 {
                            return true;
                        }
                    } else {
                        open = open + 1;
                    }
                    i = e + 1;
                },
                None => {
                    return true;
                },
            }
        }
    }
    true
}

// ---------------------------------------------------------------------------------------------
// Parsing

/// The nodes of the document `text` in document order, from its root on; none where it is not
/// well-formed.
pub uninterp spec fn document_nodes(text: Seq<char>) -> Option<Seq<XmlNodeView>>;

/// `roxmltree::Document::parse` and the nodes of the document that it gives, in document order.
///
/// What is claimed is that the nodes depend on the text alone. Which texts are documents and which
/// nodes they have is left to that function. It calls itself for each element that is open at a
/// time, and knows no limit but that of the stack; so a limit is asked for here.
#[verifier::external_body]
pub(crate) fn parse_document(text: &str) -> (r: Option<Vec<XmlNode>>)
    requires
        shallow(text@),
    ensures
        opt_node_views(r) == document_nodes(text@),
{
    match roxmltree::Document::parse(text) {
        Ok(doc) => Some(doc.descendants().map(|n| XmlNode {
            parent: n.parent().map(|p| p.id().get_usize()),
            element: n.is_element(),
            tag: n.tag_name().name().to_owned(),
            text: n.text().map(str::to_owned),
        }).collect()),
        Err(_) => None,
    }
}

// ---------------------------------------------------------------------------------------------
// Walking

/// The element `n` has the name `name`.
pub open spec fn has_tag(n: XmlNodeView, name: Seq<char>) -> bool {
    n.element && n.tag == name
}

/// The element `n` has the name `name` in any letter case.
pub open spec fn has_tag_loosely(n: XmlNodeView, name: Seq<char>) -> bool {
    n.element && text::lower(n.tag) == text::lower(name)
}

/// The trimmed text of a node, empty where it has none.
pub open spec fn trimmed_text(n: XmlNodeView) -> Seq<char> {
    match n.text {
        Some(t) => text::trim(t),
        None => seq![],
    }
}

/// The position behind the last descendant of the node at `i`, searched from `j` on: descendants
/// follow their ancestor without a gap.
pub open spec fn subtree_end(nodes: Seq<XmlNodeView>, i: int, j: int) -> int
    decreases nodes.len() - j,
{
    if j >= nodes.len() {
        j
    } else {
        match nodes[j].parent {
            Some(p) if p >= i => subtree_end(nodes, i, j + 1),
            _ => j,
        }
    }
}

/// The positions before `end` of the elements that are children of the node at `i`.
pub open spec fn element_children(nodes: Seq<XmlNodeView>, i: int, end: int) -> Seq<int>
    decreases end - i,
{
    if end <= i + 1 {
        seq![]
    } else {
        let before = element_children(nodes, i, end - 1);
        match nodes[end - 1].parent {
            Some(p) if p == i && nodes[end - 1].element => before.push(end - 1),
            _ => before,
        }
    }
}

/// The position of the first element from `k` on that has the same parent as the node at `i`.
pub open spec fn element_sibling(nodes: Seq<XmlNodeView>, i: int, k: int) -> Option<int>
    decreases nodes.len() - k,
{
    if k >= nodes.len() {
        None
    } else if nodes[k].element && nodes[k].parent == nodes[i].parent {
        Some(k)
    } else {
        element_sibling(nodes, i, k + 1)
    }
}

/// The trimmed text of the first element `name`.
pub open spec fn first_text(nodes: Seq<XmlNodeView>, name: Seq<char>, from: int) -> Option<Seq<char>>
    decreases nodes.len() - from,
{
    if from >= nodes.len() {
        None
    } else if has_tag(nodes[from], name) {
        match nodes[from].text {
            Some(t) => Some(text::trim(t)),
            None => None,
        }
    } else {
        first_text(nodes, name, from + 1)
    }
}

/// Whether the element has the name `name` in any letter case.
pub fn has_tag_loosely_of(n: &XmlNode, name: &str) -> (r: bool)
    ensures
        r == has_tag_loosely(n@, name@),
{
    n.element && text::same_text(
        text::lower_str(n.tag.as_str()).as_str(),
        text::lower_str(name).as_str(),
    )
}

/// The trimmed text of a node, empty where it has none.
pub fn trimmed_text_of(n: &XmlNode) -> (r: String)
    ensures
        r@ == trimmed_text(n@),
{
    match &n.text {
        Some(t) => text::trim_str(t.as_str()),
        None => {
            let e: String = String::new();
            assert(e@ =~= seq![]);
            e
        },
    }
}

/// The position behind the last descendant of the node at `i`.
pub fn subtree_end_of(nodes: &Vec<XmlNode>, i: usize) -> (r: usize)
    requires
        i < nodes@.len(),
    ensures
        r == subtree_end(node_views(nodes@), i as int, i + 1),
        i < r <= nodes@.len(),
{
    let n: usize = nodes.len();
    let mut j: usize = i + 1;
    while j < n
        invariant
            i < j <= n == nodes@.len(),
            subtree_end(node_views(nodes@), i as int, i + 1) == subtree_end(
                node_views(nodes@),
                i as int,
                j as int,
            ),
        decreases nodes@.len() - j,
    {
        assert(node_views(nodes@)[j as int] == nodes@[j as int]@);
        match nodes[j].parent {
            Some(p) => {
                if p < i {
                    return j;
                }
            },
            None => {
                return j;
            },
        }
        j = j + 1;
    }
    j
}

/// The positions before `end` of the elements that are children of the node at `i`.
pub fn element_children_of(nodes: &Vec<XmlNode>, i: usize, end: usize) -> (r: Vec<usize>)
    requires
        i < end <= nodes@.len(),
    ensures
        r@.len() == element_children(node_views(nodes@), i as int, end as int).len(),
        forall|k: int|
            0 <= k < r@.len() ==> #[trigger] r@[k] == element_children(
                node_views(nodes@),
                i as int,
                end as int,
            )[k] && r@[k] < nodes@.len(),
{
    let ghost model = node_views(nodes@);
    let mut r: Vec<usize> = Vec::new();
    let mut j: usize = i + 1;
    while j < end
        invariant
            i < j <= end <= nodes@.len(),
            model == node_views(nodes@),
            r@.len() == element_children(model, i as int, j as int).len(),
            forall|k: int|
                0 <= k < r@.len() ==> #[trigger] r@[k] == element_children(
                    model,
                    i as int,
                    j as int,
                )[k] && r@[k] < nodes@.len(),
        decreases end - j,
    {
        assert(model[j as int] == nodes@[j as int]@);
        if let Some(p) = nodes[j].parent {
            if p == i && nodes[j].element {
                r.push(j);
            }
        }
        j = j + 1;
    }
    r
}

fn same_parent(a: Option<usize>, b: Option<usize>) -> (r: bool)
    ensures
        r == (a == b),
{
    match (a, b) {
        (Some(x), Some(y)) => x == y,
        (None, None) => true,
        _ => false,
    }
}

/// The position of the next element with the same parent as the node at `i`.
pub fn element_sibling_of(nodes: &Vec<XmlNode>, i: usize) -> (r: Option<usize>)
    requires
        i < nodes@.len(),
    ensures
        match r {
            Some(k) => element_sibling(node_views(nodes@), i as int, i + 1) == Some(k as int) && k
                < nodes@.len(),
            None => element_sibling(node_views(nodes@), i as int, i + 1) is None,
        },
{
    let ghost model = node_views(nodes@);
    let n: usize = nodes.len();
    let mut k: usize = i + 1;
    while k < n
        invariant
            i < k <= n == nodes@.len(),
            model == node_views(nodes@),
            element_sibling(model, i as int, i + 1) == element_sibling(model, i as int, k as int),
        decreases nodes@.len() - k,
    {
        assert(model[k as int] == nodes@[k as int]@);
        assert(model[i as int] == nodes@[i as int]@);
        if nodes[k].element && same_parent(nodes[k].parent, nodes[i].parent) {
            return Some(k);
        }
        k = k + 1;
    }
    None
}

/// The trimmed text of the first element `name`.
pub fn first_text_of(nodes: &Vec<XmlNode>, name: &str) -> (r: Option<String>)
    ensures
        text::opt_text(r) == first_text(node_views(nodes@), name@, 0),
{
    let ghost model = node_views(nodes@);
    let mut i: usize = 0;
    while i < nodes.len()
        invariant
            i <= nodes@.len(),
            model == node_views(nodes@),
            first_text(model, name@, 0) == first_text(model, name@, i as int),
        decreases nodes@.len() - i,
    {
        assert(model[i as int] == nodes@[i as int]@);
        if nodes[i].element && text::same_text(nodes[i].tag.as_str(), name) {
            return match &nodes[i].text {
                Some(t) => Some(text::trim_str(t.as_str())),
                None => None,
            };
        }
        i = i + 1;
    }
    None
}

/// The text of the first element of a name, without white space at its ends; other nodes are passed
/// over.
pub proof fn law_first_text(nodes: Seq<XmlNodeView>, name: Seq<char>, i: int, from: int)
    requires
        0 <= from <= i <= nodes.len(),
        forall|j: int|
            0 <= j < i ==> !((#[trigger] nodes[j]).element && nodes[j].tag == name),
    ensures
        i < nodes.len() && nodes[i].element && nodes[i].tag == name ==> {
            &&& nodes[i].text matches Some(t) ==> first_text(nodes, name, from) == Some(
                text::trim(t),
            )
            &&& nodes[i].text is None ==> first_text(nodes, name, from) is None
        },
        i == nodes.len() ==> first_text(nodes, name, from) is None,
    decreases i - from,
{
    if from < i {
        assert(!(nodes[from].element && nodes[from].tag == name));
        law_first_text(nodes, name, i, from + 1);
    }
}

/// `n` elements, each inside the one before.
pub open spec fn nested(n: nat) -> Seq<char>
    decreases n,
{
    if n == 0 {
        seq![]
    } else {
        nested((n - 1) as nat) + seq!['<', 'a', '>']
    }
}

proof fn lemma_nested(n: nat, k: nat)
    requires
        k < n,
    ensures
        nested(n).len() == 3 * n,
        nested(n)[3 * k as int] == '<' && nested(n)[3 * k as int + 1] == 'a' && nested(n)[3 * k as int
            + 2] == '>',
    decreases n,
{
    if n > 1 {
        lemma_nested((n - 1) as nat, if k < n - 1 { k } else { 0 });
    }
    if k == n - 1 {
        assert(nested((n - 1) as nat).len() == 3 * (n - 1));
    }
}

proof fn lemma_nested_from(n: nat, k: nat)
    requires
        k <= n,
        k <= 128,
    ensures
        shallow_from(nested(n), 3 * k as int, k) <==> n <= 128,
    decreases n - k,
{
    let s = nested(n);
    if k < n {
        lemma_nested(n, k);
        let i = 3 * k as int;
        reveal_strlit("<!--");
        reveal_strlit("<![CDATA[");
        reveal_strlit("<?");
        reveal_strlit("<!");
        reveal_strlit("</");
        assert(!text::occurs_at(s, "<!--"@, i)) by {
            if text::occurs_at(s, "<!--"@, i) {
                assert(s.subrange(i, i + 4)[1] == s[i + 1]);
            }
        }
        assert(!text::occurs_at(s, "<![CDATA["@, i)) by {
            if text::occurs_at(s, "<![CDATA["@, i) {
                assert(s.subrange(i, i + 9)[1] == s[i + 1]);
            }
        }
        assert(!text::occurs_at(s, "<?"@, i)) by {
            if text::occurs_at(s, "<?"@, i) {
                assert(s.subrange(i, i + 2)[1] == s[i + 1]);
            }
        }
        assert(!text::occurs_at(s, "<!"@, i)) by {
            if text::occurs_at(s, "<!"@, i) {
                assert(s.subrange(i, i + 2)[1] == s[i + 1]);
            }
        }
        assert(!text::occurs_at(s, "</"@, i)) by {
            if text::occurs_at(s, "</"@, i) {
                assert(s.subrange(i, i + 2)[1] == s[i + 1]);
            }
        }
        assert(tag_end(s, i + 2, None) == Some(i + 2));
        assert(tag_end(s, i + 1, None) == Some(i + 2));
        if k < 128 {
            lemma_nested_from(n, k + 1);
            assert(i + 3 == 3 * (k + 1));
        }
    } else {
        if n > 0 {
            lemma_nested(n, 0);
        }
    }
}

/// A text of nested elements is parsed where 128 or fewer are open at a time.
pub proof fn law_shallow(n: nat)
    ensures
        shallow(nested(n)) <==> n <= 128,
{
    lemma_nested_from(n, 0);
}

/// A name is that of an element alone, and may be asked for in any letter case.
pub proof fn law_tags(n: XmlNodeView, name: Seq<char>)
    ensures
        !n.element ==> !has_tag(n, name) && !has_tag_loosely(n, name),
        n.element ==> (has_tag(n, name) <==> n.tag == name),
        n.element ==> (has_tag_loosely(n, name) <==> text::lower(n.tag) == text::lower(name)),
        n.text matches Some(t) ==> trimmed_text(n) == text::trim(t),
        n.text is None ==> trimmed_text(n).len() == 0,
{
}

/// An element with `n` elements in it, one beside the other.
pub open spec fn siblings(n: nat) -> Seq<char>
    decreases n,
{
    if n == 0 {
        seq!['<', 'a', '>']
    } else {
        siblings((n - 1) as nat) + seq!['<', 'a', '>', '<', '/', 'a', '>', '<', 'a', '/', '>']
    }
}

proof fn lemma_siblings(n: nat, k: nat)
    requires
        k < n,
    ensures
        siblings(n).len() == 3 + 11 * n,
        siblings(n).subrange(3 + 11 * k as int, 14 + 11 * k as int) == seq![
            '<',
            'a',
            '>',
            '<',
            '/',
            'a',
            '>',
            '<',
            'a',
            '/',
            '>',
        ],
        siblings(n).subrange(0, 3) == seq!['<', 'a', '>'],
    decreases n,
{
    let before = siblings((n - 1) as nat);
    if n > 1 {
        lemma_siblings((n - 1) as nat, if k < n - 1 { k } else { 0 });
    }
    assert(before.len() == 3 + 11 * (n - 1));
    let s = siblings(n);
    if k < n - 1 {
        assert(s.subrange(3 + 11 * k as int, 14 + 11 * k as int) =~= before.subrange(3 + 11 * k as int, 14 + 11 * k as int));
    } else {
        assert(s.subrange(3 + 11 * k as int, 14 + 11 * k as int) =~= seq![
            '<',
            'a',
            '>',
            '<',
            '/',
            'a',
            '>',
            '<',
            'a',
            '/',
            '>',
        ]);
    }
    assert(s.subrange(0, 3) =~= before.subrange(0, 3));
    assert(before.subrange(0, 3) =~= seq!['<', 'a', '>']);
}

/// What stands at a start tag is no comment, section, instruction, declaration or end tag.
proof fn lemma_start_tag(s: Seq<char>, i: int)
    requires
        0 <= i,
        i + 1 < s.len(),
        s[i + 1] == 'a',
    ensures
        !text::occurs_at(s, "<!--"@, i),
        !text::occurs_at(s, "<![CDATA["@, i),
        !text::occurs_at(s, "<?"@, i),
        !text::occurs_at(s, "<!"@, i),
        !text::occurs_at(s, "</"@, i),
{
    reveal_strlit("<!--");
    reveal_strlit("<![CDATA[");
    reveal_strlit("<?");
    reveal_strlit("<!");
    reveal_strlit("</");
    assert(text::occurs_at(s, "<!--"@, i) ==> s.subrange(i, i + 4)[1] == s[i + 1]);
    assert(text::occurs_at(s, "<![CDATA["@, i) ==> s.subrange(i, i + 9)[1] == s[i + 1]);
    assert(text::occurs_at(s, "<?"@, i) ==> s.subrange(i, i + 2)[1] == s[i + 1]);
    assert(text::occurs_at(s, "<!"@, i) ==> s.subrange(i, i + 2)[1] == s[i + 1]);
    assert(text::occurs_at(s, "</"@, i) ==> s.subrange(i, i + 2)[1] == s[i + 1]);
}

/// The same as [`shallow_from`].
#[verifier::opaque]
spec fn goes_on(s: Seq<char>, from: int, open: nat) -> bool {
    shallow_from(s, from, open)
}

proof fn lemma_after_empty_tag(s: Seq<char>, i: int)
    requires
        0 <= i,
        i + 4 <= s.len(),
        s[i] == '<' && s[i + 1] == 'a' && s[i + 2] == '/' && s[i + 3] == '>',
        goes_on(s, i + 4, 1),
    ensures
        goes_on(s, i, 1),
{
    reveal(goes_on);
    lemma_start_tag(s, i);
    assert(tag_end(s, i + 3, None) == Some(i + 3));
    assert(tag_end(s, i + 2, None) == Some(i + 3));
    assert(tag_end(s, i + 1, None) == Some(i + 3));
}

proof fn lemma_after_end_tag(s: Seq<char>, i: int)
    requires
        0 <= i,
        i + 4 <= s.len(),
        s[i] == '<' && s[i + 1] == '/' && s[i + 2] == 'a' && s[i + 3] == '>',
        goes_on(s, i + 4, 1),
    ensures
        goes_on(s, i, 2),
{
    reveal(goes_on);
    assert(shallow_from(s, i + 3, 1));
    assert(shallow_from(s, i + 2, 1));
    assert(shallow_from(s, i + 1, 1));
    reveal_strlit("</");
    reveal_strlit("<!--");
    reveal_strlit("<![CDATA[");
    reveal_strlit("<?");
    reveal_strlit("<!");
    assert(s.subrange(i, i + 2) =~= "</"@);
    assert(text::occurs_at(s, "</"@, i));
    assert(text::occurs_at(s, "<!--"@, i) ==> s.subrange(i, i + 4)[1] == s[i + 1]);
    assert(text::occurs_at(s, "<![CDATA["@, i) ==> s.subrange(i, i + 9)[1] == s[i + 1]);
    assert(text::occurs_at(s, "<?"@, i) ==> s.subrange(i, i + 2)[1] == s[i + 1]);
    assert(text::occurs_at(s, "<!"@, i) ==> s.subrange(i, i + 2)[1] == s[i + 1]);
}

proof fn lemma_after_start_tag(s: Seq<char>, i: int)
    requires
        0 <= i,
        i + 3 <= s.len(),
        s[i] == '<' && s[i + 1] == 'a' && s[i + 2] == '>',
        goes_on(s, i + 3, 2),
    ensures
        goes_on(s, i, 1),
{
    reveal(goes_on);
    lemma_start_tag(s, i);
    assert(tag_end(s, i + 2, None) == Some(i + 2));
    assert(tag_end(s, i + 1, None) == Some(i + 2));
}

proof fn lemma_unit(s: Seq<char>, i: int)
    requires
        0 <= i,
        i + 11 <= s.len(),
        s.subrange(i, i + 11) == seq!['<', 'a', '>', '<', '/', 'a', '>', '<', 'a', '/', '>'],
    ensures
        s[i] == '<' && s[i + 1] == 'a' && s[i + 2] == '>',
        s[i + 3] == '<' && s[i + 4] == '/' && s[i + 5] == 'a' && s[i + 6] == '>',
        s[i + 7] == '<' && s[i + 8] == 'a' && s[i + 9] == '/' && s[i + 10] == '>',
{
    let u = s.subrange(i, i + 11);
    let v = seq!['<', 'a', '>', '<', '/', 'a', '>', '<', 'a', '/', '>'];
    assert(s[i] == u[0] && s[i + 1] == u[1] && s[i + 2] == u[2] && s[i + 3] == u[3]);
    assert(s[i + 4] == u[4] && s[i + 5] == u[5] && s[i + 6] == u[6] && s[i + 7] == u[7]);
    assert(s[i + 8] == u[8] && s[i + 9] == u[9] && s[i + 10] == u[10]);
    assert(v[0] == '<' && v[1] == 'a' && v[2] == '>' && v[3] == '<' && v[4] == '/' && v[5] == 'a');
    assert(v[6] == '>' && v[7] == '<' && v[8] == 'a' && v[9] == '/' && v[10] == '>');
}

proof fn lemma_at_end(s: Seq<char>, i: int)
    requires
        i >= s.len(),
    ensures
        goes_on(s, i, 1),
{
    reveal(goes_on);
}

/// The elements number `k` of a row of siblings.
spec fn pair_at(s: Seq<char>, k: int) -> bool {
    let i = 3 + 11 * k;
    &&& 0 <= i && i + 11 <= s.len()
    &&& s[i] == '<' && s[i + 1] == 'a' && s[i + 2] == '>'
    &&& s[i + 3] == '<' && s[i + 4] == '/' && s[i + 5] == 'a' && s[i + 6] == '>'
    &&& s[i + 7] == '<' && s[i + 8] == 'a' && s[i + 9] == '/' && s[i + 10] == '>'
}

proof fn lemma_pairs_from(s: Seq<char>, n: int, k: int)
    requires
        0 <= k <= n,
        s.len() == 3 + 11 * n,
        forall|j: int| 0 <= j < n ==> #[trigger] pair_at(s, j),
    ensures
        goes_on(s, 3 + 11 * k, 1),
    decreases n - k,
{
    let i = 3 + 11 * k;
    if k < n {
        assert(pair_at(s, k));
        lemma_pairs_from(s, n, k + 1);
        assert(i + 11 == 3 + 11 * (k + 1));
        lemma_after_empty_tag(s, i + 7);
        lemma_after_end_tag(s, i + 3);
        lemma_after_start_tag(s, i);
    } else {
        lemma_at_end(s, i);
    }
}

proof fn lemma_first_tag(s: Seq<char>)
    requires
        s.len() >= 3,
        s[0] == '<' && s[1] == 'a' && s[2] == '>',
        goes_on(s, 3, 1),
    ensures
        shallow(s),
{
    reveal(goes_on);
    lemma_start_tag(s, 0);
    assert(tag_end(s, 2, None) == Some(2int));
    assert(tag_end(s, 1, None) == Some(2int));
}

proof fn lemma_pairs(n: nat)
    ensures
        siblings(n).len() == 3 + 11 * n,
        siblings(n)[0] == '<' && siblings(n)[1] == 'a' && siblings(n)[2] == '>',
        forall|k: int| 0 <= k < n ==> #[trigger] pair_at(siblings(n), k),
{
    let s = siblings(n);
    if n > 0 {
        lemma_siblings(n, 0);
        let u = s.subrange(0, 3);
        assert(u[0] == s[0] && u[1] == s[1] && u[2] == s[2]);
    }
    assert forall|k: int| 0 <= k < n implies #[trigger] pair_at(s, k) by {
        lemma_siblings(n, k as nat);
        lemma_unit(s, 3 + 11 * k);
    }
}

/// Elements that stand beside one another are not open at the same time, however many there are.
pub proof fn law_siblings_are_shallow(n: nat)
    ensures
        shallow(siblings(n)),
{
    lemma_pairs(n);
    lemma_pairs_from(siblings(n), n as int, 0);
    lemma_first_tag(siblings(n));
}

} // verus!

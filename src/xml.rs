//! A small XML reader and the escaping of text, for the subset that GPS
//! recordings use: one root element with attributes, nested elements, text,
//! CDATA sections, comments, processing instructions and a doctype line.
use vstd::prelude::*;
use crate::text::{chars_of, string_of};

verus! {

/// The text of one character in escaped XML, as quick-xml writes it.
pub open spec fn escaped_char(c: char) -> Seq<char> {
    if c == '<' {
        "&lt;"@
    } else if c == '>' {
        "&gt;"@
    } else if c == '&' {
        "&amp;"@
    } else if c == '\'' {
        "&apos;"@
    } else if c == '"' {
        "&quot;"@
    } else if c == '\r' {
        "&#13;"@
    } else {
        seq![c]
    }
}

/// `s` with each special character replaced by its entity.
pub open spec fn xml_escaped(s: Seq<char>) -> Seq<char>
    decreases s.len(),
{
    if s.len() == 0 {
        Seq::empty()
    } else {
        xml_escaped(s.drop_last()) + escaped_char(s.last())
    }
}

/// What quick-xml reads from escaped text: the predefined entities and
/// character references replaced, or `None` for a malformed or unknown one.
pub uninterp spec fn xml_unescaped(s: Seq<char>) -> Option<Seq<char>>;

/// Relies on `quick_xml::escape::escape`: `<`, `>`, `&`, `'`, `"` and `\r`
/// become entities, every other character is kept.
#[verifier::external_body]
pub(crate) fn escape_text(s: &str) -> (r: String)
    ensures
        r@ == xml_escaped(s@),
{
    quick_xml::escape::escape(s).into_owned()
}

/// Relies on `quick_xml::escape::unescape`, which hands text without `&`
/// back unchanged.
#[verifier::external_body]
fn unescape_text(raw: &[char]) -> (r: Option<String>)
    ensures
        r is Some <==> xml_unescaped(raw@) is Some,
        r matches Some(t) ==> t@ == xml_unescaped(raw@)->0,
        !raw@.contains('&') ==> r is Some,
        r matches Some(t) ==> (raw@.contains('&') || t@ == raw@),
{
    let s: String = raw.iter().collect();
    match quick_xml::escape::unescape(&s) {
        Ok(t) => Some(t.into_owned()),
        Err(_) => None,
    }
}

/// An attribute, its value unescaped.
#[derive(Clone, Debug)]
pub struct Attribute {
    pub name: String,
    pub value: String,
}

/// What an element holds: a child element or a run of text.
pub enum Node {
    Element(Element),
    Text(String),
}

/// An element with its attributes and its children in document order.
pub struct Element {
    pub name: String,
    pub attributes: Vec<Attribute>,
    pub children: Vec<Node>,
}

pub open spec fn is_space(c: char) -> bool {
    c == ' ' || c == '\t' || c == '\n' || c == '\r'
}

pub(crate) fn space_char(c: char) -> (r: bool)
    ensures
        r == is_space(c),
{
    c == ' ' || c == '\t' || c == '\n' || c == '\r'
}

pub open spec fn is_name_char(c: char) -> bool {
    !(is_space(c) || c == '<' || c == '>' || c == '/' || c == '=' || c == '"' || c == '\''
        || c == '?' || c == '!')
}

fn name_char(c: char) -> (r: bool)
    ensures
        r == is_name_char(c),
{
    !(space_char(c) || c == '<' || c == '>' || c == '/' || c == '=' || c == '"' || c == '\''
        || c == '?' || c == '!')
}

/// An XML tree as the reader sees it: elements with their attributes and
/// children, and runs of text.
pub enum XmlNode {
    Elem { name: Seq<char>, attrs: Seq<(Seq<char>, Seq<char>)>, kids: Seq<XmlNode> },
    Text { text: Seq<char> },
}

/// The attributes as name and value pairs.
pub open spec fn attrs_model(a: Seq<Attribute>) -> Seq<(Seq<char>, Seq<char>)> {
    a.map_values(|x: Attribute| (x.name@, x.value@))
}

/// `n` holds the tree `m`.
pub open spec fn node_is(n: Node, m: XmlNode) -> bool
    decreases m,
{
    match m {
        XmlNode::Elem { name, attrs, kids } => match n {
            Node::Element(e) => {
                &&& e.name@ == name
                &&& attrs_model(e.attributes@) == attrs
                &&& e.children@.len() == kids.len()
                &&& forall|k: int|
                    0 <= k < kids.len() ==> node_is(#[trigger] e.children@[k], kids[k])
            },
            Node::Text(_) => false,
        },
        XmlNode::Text { text } => match n {
            Node::Text(t) => t@ == text,
            Node::Element(_) => false,
        },
    }
}

/// `e` holds the element tree `m`.
pub open spec fn element_is(e: Element, m: XmlNode) -> bool {
    node_is(Node::Element(e), m)
}

/// The first index at or after `i` that is not white space.
pub open spec fn sp_skip_space(s: Seq<char>, i: int) -> int
    decreases s.len() - i,
{
    if 0 <= i < s.len() && is_space(s[i]) {
        sp_skip_space(s, i + 1)
    } else {
        i
    }
}

/// The end of the run of name characters from `i`.
pub open spec fn sp_scan_name(s: Seq<char>, i: int) -> int
    decreases s.len() - i,
{
    if 0 <= i < s.len() && is_name_char(s[i]) {
        sp_scan_name(s, i + 1)
    } else {
        i
    }
}

/// The first index at or after `i` that holds `q` or `<`.
pub open spec fn sp_scan_until(s: Seq<char>, i: int, q: char) -> int
    decreases s.len() - i,
{
    if 0 <= i < s.len() && s[i] != q && s[i] != '<' {
        sp_scan_until(s, i + 1, q)
    } else {
        i
    }
}

/// Whether `lit` stands in `s` at `i`.
pub open spec fn sp_at(s: Seq<char>, i: int, lit: Seq<char>) -> bool {
    0 <= i && i + lit.len() <= s.len() && s.subrange(i, i + lit.len()) == lit
}

/// The index just past the first `lit` at or after `i`.
pub open spec fn sp_skip_past(s: Seq<char>, i: int, lit: Seq<char>) -> Option<int>
    decreases s.len() - i,
{
    if i < 0 || i >= s.len() {
        None
    } else if sp_at(s, i, lit) {
        Some(i + lit.len())
    } else {
        sp_skip_past(s, i + 1, lit)
    }
}

/// The text of unescaped characters: unchanged without `&`.
pub open spec fn unescaped(raw: Seq<char>) -> Option<Seq<char>> {
    if raw.contains('&') {
        xml_unescaped(raw)
    } else {
        Some(raw)
    }
}

/// White space, comments, processing instructions and doctype lines skipped
/// from `i`: the index after them, or `None` for an unclosed one.
pub open spec fn sp_skip_misc(s: Seq<char>, i: int) -> Option<int>
    decreases s.len() - i,
{
    let j = sp_skip_space(s, i);
    let next = if sp_at(s, j, "<!--"@) {
        Some(sp_skip_past(s, j, "-->"@))
    } else if sp_at(s, j, "<?"@) {
        Some(sp_skip_past(s, j, "?>"@))
    } else if sp_at(s, j, "<!DOCTYPE"@) {
        Some(sp_skip_past(s, j, ">"@))
    } else {
        None
    };
    match next {
        None => Some(j),
        Some(Some(k)) => if i < k <= s.len() {
            sp_skip_misc(s, k)
        } else {
            None
        },
        Some(None) => None,
    }
}

/// A quoted attribute value at `i`, unescaped, and the index past it.
pub open spec fn sp_attr_value(s: Seq<char>, i: int) -> Option<(Seq<char>, int)> {
    if !(0 <= i < s.len()) || (s[i] != '"' && s[i] != '\'') {
        None
    } else {
        let j = sp_scan_until(s, i + 1, s[i]);
        if j >= s.len() || s[j] != s[i] {
            None
        } else {
            match unescaped(s.subrange(i + 1, j)) {
                Some(v) => Some((v, j + 1)),
                None => None,
            }
        }
    }
}

/// The attributes of a start tag from `j`, the index past the tag, and
/// whether the tag closes the element (`/>`).
pub open spec fn sp_attrs(s: Seq<char>, j: int) -> Option<(Seq<(Seq<char>, Seq<char>)>, int, bool)>
    decreases s.len() - j,
{
    let k = sp_skip_space(s, j);
    if j < 0 || k < j || k >= s.len() {
        None
    } else if s[k] == '>' {
        Some((Seq::empty(), k + 1, false))
    } else if s[k] == '/' {
        if k + 1 < s.len() && s[k + 1] == '>' {
            Some((Seq::empty(), k + 2, true))
        } else {
            None
        }
    } else if k == j {
        None
    } else {
        let ae = sp_scan_name(s, k);
        let eq = sp_skip_space(s, ae);
        if ae == k || eq >= s.len() || s[eq] != '=' {
            None
        } else {
            let v = sp_skip_space(s, eq + 1);
            match sp_attr_value(s, v) {
                None => None,
                Some((val, after)) => if j < after <= s.len() {
                    match sp_attrs(s, after) {
                        Some((rest, p, c)) => Some((seq![(s.subrange(k, ae), val)] + rest, p, c)),
                        None => None,
                    }
                } else {
                    None
                },
            }
        }
    }
}

pub open spec fn prefix_nodes(pre: Seq<XmlNode>, r: Option<(Seq<XmlNode>, int)>) -> Option<(Seq<XmlNode>, int)> {
    match r {
        Some((kids, e)) => Some((pre + kids, e)),
        None => None,
    }
}

proof fn lemma_prefix_nodes(a: Seq<XmlNode>, b: Seq<XmlNode>, r: Option<(Seq<XmlNode>, int)>)
    ensures
        prefix_nodes(a, prefix_nodes(b, r)) == prefix_nodes(a + b, r),
{
    match r {
        Some((kids, e)) => {
            assert(a + (b + kids) =~= (a + b) + kids);
        },
        None => {},
    }
}

/// The element whose start tag begins at `i`, and the index past its end.
pub open spec fn sp_element(s: Seq<char>, i: int) -> Option<(XmlNode, int)>
    decreases s.len() - i, 0int,
{
    if i < 0 || i >= s.len() || s[i] != '<' {
        None
    } else {
        let ne = sp_scan_name(s, i + 1);
        let name = s.subrange(i + 1, ne);
        if ne <= i + 1 || ne > s.len() {
            None
        } else {
            match sp_attrs(s, ne) {
                None => None,
                Some((attrs, p, closed)) => if closed {
                    Some((XmlNode::Elem { name, attrs, kids: Seq::empty() }, p))
                } else if i < p <= s.len() {
                    match sp_content(s, p, name) {
                        Some((kids, e)) => Some((XmlNode::Elem { name, attrs, kids }, e)),
                        None => None,
                    }
                } else {
                    None
                },
            }
        }
    }
}

/// The children of an element named `name` from `j`, up to and including its
/// end tag, and the index past that tag.
pub open spec fn sp_content(s: Seq<char>, j: int, name: Seq<char>) -> Option<(Seq<XmlNode>, int)>
    decreases s.len() - j, 1int,
{
    let t = sp_scan_until(s, j, '<');
    if j < 0 || t < j || t >= s.len() {
        None
    } else {
        let text = if t > j {
            match unescaped(s.subrange(j, t)) {
                Some(x) => Some(seq![XmlNode::Text { text: x }]),
                None => None,
            }
        } else {
            Some(Seq::<XmlNode>::empty())
        };
        match text {
            None => None,
            Some(pre) => if sp_at(s, t, "</"@) {
                let ce = sp_scan_name(s, t + 2);
                let k = sp_skip_space(s, ce);
                if ce > s.len() || s.subrange(t + 2, ce) != name || k >= s.len() || s[k] != '>' {
                    None
                } else {
                    Some((pre, k + 1))
                }
            } else if sp_at(s, t, "<!--"@) {
                match sp_skip_past(s, t, "-->"@) {
                    Some(k) => if j < k <= s.len() {
                        prefix_nodes(pre, sp_content(s, k, name))
                    } else {
                        None
                    },
                    None => None,
                }
            } else if sp_at(s, t, "<![CDATA["@) {
                match sp_skip_past(s, t + 9, "]]>"@) {
                    Some(k) => if j < k <= s.len() && t + 9 <= k - 3 {
                        prefix_nodes(
                            pre.push(XmlNode::Text { text: s.subrange(t + 9, k - 3) }),
                            sp_content(s, k, name),
                        )
                    } else {
                        None
                    },
                    None => None,
                }
            } else if sp_at(s, t, "<?"@) {
                match sp_skip_past(s, t, "?>"@) {
                    Some(k) => if j < k <= s.len() {
                        prefix_nodes(pre, sp_content(s, k, name))
                    } else {
                        None
                    },
                    None => None,
                }
            } else {
                match sp_element(s, t) {
                    Some((c, k)) => if j < k <= s.len() {
                        prefix_nodes(pre.push(c), sp_content(s, k, name))
                    } else {
                        None
                    },
                    None => None,
                }
            },
        }
    }
}

/// The tree of a whole document: an optional byte order mark, declaration,
/// comments and doctype, one root element, then only comments and white
/// space; `None` when the text is not such a document.
pub open spec fn xml_tree(s: Seq<char>) -> Option<XmlNode> {
    let i = if s.len() > 0 && s[0] == '\u{feff}' {
        1int
    } else {
        0int
    };
    match sp_skip_misc(s, i) {
        None => None,
        Some(start) => if start >= s.len() || s[start] != '<' {
            None
        } else {
            match sp_element(s, start) {
                None => None,
                Some((m, end)) => match sp_skip_misc(s, end) {
                    Some(k) => if k == s.len() {
                        Some(m)
                    } else {
                        None
                    },
                    None => None,
                },
            }
        },
    }
}

proof fn lemma_skip_space_bounds(s: Seq<char>, i: int)
    requires
        0 <= i <= s.len(),
    ensures
        i <= sp_skip_space(s, i) <= s.len(),
    decreases s.len() - i,
{
    if i < s.len() && is_space(s[i]) {
        lemma_skip_space_bounds(s, i + 1);
    }
}

proof fn lemma_scan_name_bounds(s: Seq<char>, i: int)
    requires
        0 <= i <= s.len(),
    ensures
        i <= sp_scan_name(s, i) <= s.len(),
    decreases s.len() - i,
{
    if i < s.len() && is_name_char(s[i]) {
        lemma_scan_name_bounds(s, i + 1);
    }
}

proof fn lemma_scan_until_bounds(s: Seq<char>, i: int, q: char)
    requires
        0 <= i <= s.len(),
    ensures
        i <= sp_scan_until(s, i, q) <= s.len(),
    decreases s.len() - i,
{
    if i < s.len() && s[i] != q && s[i] != '<' {
        lemma_scan_until_bounds(s, i + 1, q);
    }
}

proof fn lemma_skip_past_bounds(s: Seq<char>, i: int, lit: Seq<char>)
    ensures
        sp_skip_past(s, i, lit) matches Some(k) ==> i + lit.len() <= k <= s.len(),
    decreases s.len() - i,
{
    if 0 <= i < s.len() && !sp_at(s, i, lit) {
        lemma_skip_past_bounds(s, i + 1, lit);
    }
}

/// The first index at or after `i` that is not white space.
fn skip_space(s: &[char], i: usize) -> (j: usize)
    requires
        i <= s@.len(),
    ensures
        j == sp_skip_space(s@, i as int),
        i <= j <= s@.len(),
{
    let mut j = i;
    while j < s.len() && space_char(s[j])
        invariant
            i <= j <= s@.len(),
            sp_skip_space(s@, i as int) == sp_skip_space(s@, j as int),
        decreases s@.len() - j,
    {
        j = j + 1;
    }
    j
}

/// The end of the run of name characters that starts at `i`.
fn scan_name(s: &[char], i: usize) -> (j: usize)
    requires
        i <= s@.len(),
    ensures
        j == sp_scan_name(s@, i as int),
        i <= j <= s@.len(),
{
    let mut j = i;
    while j < s.len() && name_char(s[j])
        invariant
            i <= j <= s@.len(),
            sp_scan_name(s@, i as int) == sp_scan_name(s@, j as int),
        decreases s@.len() - j,
    {
        j = j + 1;
    }
    j
}

/// The first index at or after `i` that holds `q` or `<`.
fn scan_until(s: &[char], i: usize, q: char) -> (j: usize)
    requires
        i <= s@.len(),
    ensures
        j == sp_scan_until(s@, i as int, q),
        i <= j <= s@.len(),
{
    let mut j = i;
    while j < s.len() && s[j] != q && s[j] != '<'
        invariant
            i <= j <= s@.len(),
            sp_scan_until(s@, i as int, q) == sp_scan_until(s@, j as int, q),
        decreases s@.len() - j,
    {
        j = j + 1;
    }
    j
}

/// Whether `lit` stands in `s` at `i`.
fn at(s: &[char], i: usize, lit: &str) -> (r: bool)
    requires
        i <= s@.len(),
    ensures
        r == sp_at(s@, i as int, lit@),
{
    let l = chars_of(lit);
    let total = s.len();
    if l.len() > total - i {
        return false;
    }
    let mut k: usize = 0;
    while k < l.len()
        invariant
            k <= l@.len(),
            l@ == lit@,
            i + l@.len() <= s@.len(),
            total == s@.len(),
            forall|t: int| 0 <= t < k ==> s@[i + t] == l@[t],
        decreases l@.len() - k,
    {
        let p = i + k;
        if s[p] != l[k] {
            assert(s@.subrange(i as int, i + lit@.len())[k as int] != lit@[k as int]);
            return false;
        }
        k = k + 1;
    }
    assert(s@.subrange(i as int, i + lit@.len()) =~= lit@);
    true
}

/// The index just past the first `lit` at or after `i`.
fn skip_past(s: &[char], i: usize, lit: &str) -> (r: Option<usize>)
    requires
        i <= s@.len(),
    ensures
        match r {
            Some(j) => sp_skip_past(s@, i as int, lit@) == Some(j as int),
            None => sp_skip_past(s@, i as int, lit@) is None,
        },
{
    let n = chars_of(lit).len();
    let mut j = i;
    while j < s.len()
        invariant
            i <= j <= s@.len(),
            n == lit@.len(),
            sp_skip_past(s@, i as int, lit@) == sp_skip_past(s@, j as int, lit@),
        decreases s@.len() - j,
    {
        if at(s, j, lit) {
            return Some(j + n);
        }
        j = j + 1;
    }
    None
}

/// Skips white space, comments, processing instructions and doctype lines.
fn skip_misc(s: &[char], i: usize) -> (r: Option<usize>)
    requires
        i <= s@.len(),
    ensures
        match r {
            Some(j) => sp_skip_misc(s@, i as int) == Some(j as int) && i <= j <= s@.len(),
            None => sp_skip_misc(s@, i as int) is None,
        },
{
    let mut pos = i;
    loop
        invariant
            i <= pos <= s@.len(),
            sp_skip_misc(s@, i as int) == sp_skip_misc(s@, pos as int),
        decreases s@.len() - pos,
    {
        let j = skip_space(s, pos);
        let next = if at(s, j, "<!--") {
            Some(skip_past(s, j, "-->"))
        } else if at(s, j, "<?") {
            Some(skip_past(s, j, "?>"))
        } else if at(s, j, "<!DOCTYPE") {
            Some(skip_past(s, j, ">"))
        } else {
            None
        };
        proof {
            reveal_strlit("-->");
            reveal_strlit("?>");
            reveal_strlit(">");
            lemma_skip_past_bounds(s@, j as int, "-->"@);
            lemma_skip_past_bounds(s@, j as int, "?>"@);
            lemma_skip_past_bounds(s@, j as int, ">"@);
        }
        match next {
            None => {
                return Some(j);
            },
            Some(Some(k)) => {
                pos = k;
            },
            Some(None) => {
                return None;
            },
        }
    }
}

/// Reads a quoted attribute value at `i`: the value unescaped and the index
/// past the closing quote.
fn attribute_value(s: &[char], i: usize) -> (r: Option<(String, usize)>)
    requires
        i < s@.len(),
    ensures
        match r {
            Some((v, j)) => sp_attr_value(s@, i as int) == Some((v@, j as int)),
            None => sp_attr_value(s@, i as int) is None,
        },
{
    let q = s[i];
    if q != '"' && q != '\'' {
        return None;
    }
    let j = scan_until(s, i + 1, q);
    if j >= s.len() || s[j] != q {
        return None;
    }
    match unescape_text(&s[i + 1..j]) {
        Some(v) => Some((v, j + 1)),
        None => None,
    }
}

pub open spec fn prefix_attrs(
    pre: Seq<(Seq<char>, Seq<char>)>,
    r: Option<(Seq<(Seq<char>, Seq<char>)>, int, bool)>,
) -> Option<(Seq<(Seq<char>, Seq<char>)>, int, bool)> {
    match r {
        Some((a, p, c)) => Some((pre + a, p, c)),
        None => None,
    }
}

/// Reads the attributes of a start tag from `j`: the attributes, the index
/// past the tag and whether the tag closes the element.
fn parse_attributes(s: &[char], j0: usize) -> (r: Option<(Vec<Attribute>, usize, bool)>)
    requires
        j0 <= s@.len(),
    ensures
        match r {
            Some((a, p, c)) => sp_attrs(s@, j0 as int) == Some((attrs_model(a@), p as int, c))
                && p <= s@.len(),
            None => sp_attrs(s@, j0 as int) is None,
        },
{
    let mut attributes: Vec<Attribute> = Vec::new();
    let mut j = j0;
    loop
        invariant
            j0 <= j <= s@.len(),
            sp_attrs(s@, j0 as int) == prefix_attrs(attrs_model(attributes@), sp_attrs(s@, j as int)),
        decreases s@.len() - j,
    {
        let ghost pre = attrs_model(attributes@);
        let k = skip_space(s, j);
        if k >= s.len() {
            return None;
        }
        if s[k] == '>' {
            assert(pre + Seq::empty() =~= pre);
            return Some((attributes, k + 1, false));
        }
        if s[k] == '/' {
            if k + 1 < s.len() && s[k + 1] == '>' {
                assert(pre + Seq::empty() =~= pre);
                return Some((attributes, k + 2, true));
            }
            return None;
        }
        if k == j {
            return None;
        }
        let attr_end = scan_name(s, k);
        let eq = skip_space(s, attr_end);
        if attr_end == k || eq >= s.len() || s[eq] != '=' {
            return None;
        }
        let v = skip_space(s, eq + 1);
        if v >= s.len() {
            assert(sp_attr_value(s@, v as int) is None);
            return None;
        }
        let (value, after) = match attribute_value(s, v) {
            Some(p) => p,
            None => {
                return None;
            },
        };
        if !(j < after && after <= s.len()) {
            return None;
        }
        let attr_name = string_of(&s[k..attr_end]);
        let ghost item = (s@.subrange(k as int, attr_end as int), value@);
        attributes.push(Attribute { name: attr_name, value });
        assert(attrs_model(attributes@) =~= pre.push(item));
        proof {
            match sp_attrs(s@, after as int) {
                Some((rest, p, c)) => {
                    assert(pre.push(item) + rest =~= pre + (seq![item] + rest));
                },
                None => {},
            }
        }
        j = after;
    }
}

/// Reads the element whose start tag begins at `i`; gives the element and the
/// index past its end tag, or `None` where the text stops being XML.
pub fn parse_element(s: &[char], i: usize) -> (r: Option<(Element, usize)>)
    requires
        i < s@.len(),
    ensures
        match r {
            Some((e, j)) => sp_element(s@, i as int) matches Some((m, k)) && k == j && element_is(e, m)
                && j <= s@.len(),
            None => sp_element(s@, i as int) is None,
        },
    decreases s@.len() - i,
{
    if s[i] != '<' {
        return None;
    }
    let name_end = scan_name(s, i + 1);
    if name_end == i + 1 {
        return None;
    }
    let name = string_of(&s[i + 1..name_end]);
    let ghost nm = s@.subrange(i + 1, name_end as int);
    let (attributes, mut j, closed) = match parse_attributes(s, name_end) {
        Some(t) => t,
        None => {
            return None;
        },
    };
    if closed {
        let e = Element { name, attributes, children: Vec::new() };
        assert(element_is(e, XmlNode::Elem { name: nm, attrs: attrs_model(e.attributes@), kids: Seq::empty() }));
        return Some((e, j));
    }
    proof {
        lemma_skip_space_bounds(s@, name_end as int);
    }
    if j <= i {
        return None;
    }
    let mut children: Vec<Node> = Vec::new();
    let ghost mut pre: Seq<XmlNode> = Seq::empty();
    let ghost p0 = j as int;
    proof {
        reveal_strlit("-->");
        reveal_strlit("?>");
        reveal_strlit("]]>");
        reveal_strlit("</");
        reveal_strlit("<![CDATA[");
    }
    loop
        invariant
            i < j <= s@.len(),
            i < p0 <= s@.len(),
            "-->"@.len() == 3,
            "?>"@.len() == 2,
            "]]>"@.len() == 3,
            "</"@.len() == 2,
            "<![CDATA["@.len() == 9,
            i + 1 < name_end <= s@.len(),
            nm == s@.subrange(i + 1, name_end as int),
            name@ == nm,
            sp_element(s@, i as int) == (match sp_content(s@, p0, nm) {
                Some((kids, e)) => Some((XmlNode::Elem { name: nm, attrs: attrs_model(attributes@), kids }, e)),
                None => None,
            }),
            sp_content(s@, p0, nm) == prefix_nodes(pre, sp_content(s@, j as int, nm)),
            children@.len() == pre.len(),
            forall|k: int| 0 <= k < pre.len() ==> node_is(#[trigger] children@[k], pre[k]),
        decreases s@.len() - j,
    {
        let text_start = j;
        j = scan_until(s, j, '<');
        if j >= s.len() {
            return None;
        }
        let ghost pre0 = pre;
        if j > text_start {
            match unescape_text(&s[text_start..j]) {
                Some(t) => {
                    assert(unescaped(s@.subrange(text_start as int, j as int)) == Some(t@));
                    proof {
                        pre = pre.push(XmlNode::Text { text: t@ });
                    }
                    children.push(Node::Text(t));
                },
                None => {
                    return None;
                },
            }
        }
        let ghost text_nodes = pre.subrange(pre0.len() as int, pre.len() as int);
        assert(pre =~= pre0 + text_nodes);
        assert(j > text_start ==> text_nodes =~= seq![pre[pre.len() - 1]]);
        assert(j == text_start ==> text_nodes =~= Seq::<XmlNode>::empty());
        if at(s, j, "</") {
            let close_end = scan_name(s, j + 2);
            let close = &s[j + 2..close_end];
            let open = &s[i + 1..name_end];
            if !same_chars(close, open) {
                return None;
            }
            let k = skip_space(s, close_end);
            if k >= s.len() || s[k] != '>' {
                return None;
            }
            assert(sp_content(s@, text_start as int, nm) == Some((text_nodes, (k + 1) as int)));
            proof {
                lemma_prefix_nodes(pre0, text_nodes, Some((Seq::<XmlNode>::empty(), (k + 1) as int)));
                assert(text_nodes + Seq::<XmlNode>::empty() =~= text_nodes);
            }
            let ghost m = XmlNode::Elem { name: nm, attrs: attrs_model(attributes@), kids: pre };
            assert(sp_content(s@, p0, nm) == Some((pre, (k + 1) as int)));
            assert(sp_element(s@, i as int) == Some((m, (k + 1) as int)));
            let e = Element { name, attributes, children };
            assert(forall|t: int| 0 <= t < pre.len() ==> node_is(#[trigger] e.children@[t], pre[t]));
            assert(element_is(e, m));
            return Some((e, k + 1));
        } else if at(s, j, "<!--") {
            match skip_past(s, j, "-->") {
                Some(k) => {
                    if !(text_start < k && k <= s.len()) {
                        return None;
                    }
                    assert(sp_content(s@, text_start as int, nm) == prefix_nodes(text_nodes, sp_content(s@, k as int, nm)));
                    proof {
                        lemma_prefix_nodes(pre0, text_nodes, sp_content(s@, k as int, nm));
                    }
                    j = k;
                },
                None => {
                    return None;
                },
            }
        } else if at(s, j, "<![CDATA[") {
            let start = j + 9;
            match skip_past(s, start, "]]>") {
                Some(k) => {
                    proof {
                        lemma_skip_past_bounds(s@, start as int, "]]>"@);
                    }
                    if !(text_start < k && k <= s.len()) {
                        return None;
                    }
                    let t = string_of(&s[start..k - 3]);
                    let ghost tn = text_nodes.push(XmlNode::Text { text: t@ });
                    assert(sp_content(s@, text_start as int, nm) == prefix_nodes(tn, sp_content(s@, k as int, nm)));
                    proof {
                        lemma_prefix_nodes(pre0, tn, sp_content(s@, k as int, nm));
                        pre = pre.push(XmlNode::Text { text: t@ });
                        assert(pre =~= pre0 + tn);
                    }
                    children.push(Node::Text(t));
                    j = k;
                },
                None => {
                    return None;
                },
            }
        } else if at(s, j, "<?") {
            match skip_past(s, j, "?>") {
                Some(k) => {
                    if !(text_start < k && k <= s.len()) {
                        return None;
                    }
                    assert(sp_content(s@, text_start as int, nm) == prefix_nodes(text_nodes, sp_content(s@, k as int, nm)));
                    proof {
                        lemma_prefix_nodes(pre0, text_nodes, sp_content(s@, k as int, nm));
                    }
                    j = k;
                },
                None => {
                    return None;
                },
            }
        } else {
            match parse_element(s, j) {
                Some((child, k)) => {
                    if !(text_start < k && k <= s.len()) {
                        return None;
                    }
                    let ghost pr = sp_element(s@, j as int)->0;
                    let ghost c = pr.0;
                    let ghost tn = text_nodes.push(c);
                    assert(sp_content(s@, text_start as int, nm) == prefix_nodes(tn, sp_content(s@, k as int, nm)));
                    proof {
                        lemma_prefix_nodes(pre0, tn, sp_content(s@, k as int, nm));
                        pre = pre.push(c);
                        assert(pre =~= pre0 + tn);
                    }
                    children.push(Node::Element(child));
                    j = k;
                },
                None => {
                    return None;
                },
            }
        }
    }
}

/// Whether two runs of characters are equal.
fn same_chars(a: &[char], b: &[char]) -> (r: bool)
    ensures
        r == (a@ == b@),
{
    if a.len() != b.len() {
        return false;
    }
    let mut k: usize = 0;
    while k < a.len()
        invariant
            k <= a@.len() == b@.len(),
            forall|t: int| 0 <= t < k ==> a@[t] == b@[t],
        decreases a@.len() - k,
    {
        if a[k] != b[k] {
            return false;
        }
        k = k + 1;
    }
    assert(a@ =~= b@);
    true
}

/// Reads a whole document: optional declaration, comments and doctype, one
/// root element, then nothing but comments and white space.
pub fn parse_document(s: &[char]) -> (r: Option<Element>)
    ensures
        match r {
            Some(e) => xml_tree(s@) matches Some(m) && element_is(e, m),
            None => xml_tree(s@) is None,
        },
{
    let mut i: usize = 0;
    if s.len() > 0 && s[0] == '\u{feff}' {
        i = 1;
    }
    let start = match skip_misc(s, i) {
        Some(k) => k,
        None => {
            return None;
        },
    };
    if start >= s.len() || s[start] != '<' {
        return None;
    }
    let (root, end) = match parse_element(s, start) {
        Some(p) => p,
        None => {
            return None;
        },
    };
    match skip_misc(s, end) {
        Some(k) => if k == s.len() {
            Some(root)
        } else {
            None
        },
        None => None,
    }
}

} // verus!

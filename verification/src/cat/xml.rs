//! The XML of an XML-RPC response, as a flat list of its nodes.
use crate::text;
use vstd::prelude::*;

verus! {

broadcast use vstd::seq::group_seq_axioms;

/// One node of a document.
#[derive(Debug)]
pub struct XmlNode {
    /// The place of the node that it stands in.
    pub parent: Option<usize>,
    pub element: bool,
    /// The local name of an element; empty for any other node.
    pub tag: String,
    /// The text of a text node or comment, or an element's first child where
    /// that is a text node.
    pub text: Option<String>,
}

/// What a node holds: its parent's place, whether it is an element, its tag and
/// its text.
pub type NodeView = (Option<usize>, bool, Seq<char>, Option<Seq<char>>);

impl View for XmlNode {
    type V = NodeView;

    open spec fn view(&self) -> NodeView {
        (
            self.parent,
            self.element,
            self.tag@,
            match self.text {
                Some(t) => Some(t@),
                None => None,
            },
        )
    }
}

pub open spec fn views(v: Seq<XmlNode>) -> Seq<NodeView> {
    Seq::new(v.len(), |i: int| v[i]@)
}

/// How deep a text may be nested: the parser calls itself once for every level.
pub const MAX_NESTING: usize = 100;

/// Whether a text goes on like this from `i` on.
pub open spec fn goes_on(s: Seq<char>, i: int, pat: Seq<char>) -> bool {
    i + pat.len() <= s.len() && s.subrange(i, i + pat.len()) == pat
}

/// Where the first such mark at or behind `from` ends, or the text.
pub open spec fn behind(s: Seq<char>, pat: Seq<char>, from: int) -> int {
    match text::find_seq(s, pat, from) {
        Some(k) => k + pat.len(),
        None => s.len() as int,
    }
}

/// Where it ends if something begins at `i` in which a tag is no tag: a comment,
/// a section of characters or an instruction.
pub open spec fn veil_end(s: Seq<char>, i: int) -> Option<int> {
    if goes_on(s, i, "<!--"@) {
        Some(behind(s, "-->"@, i + 4))
    } else if goes_on(s, i, "<![CDATA["@) {
        Some(behind(s, "]]>"@, i + 9))
    } else if goes_on(s, i, "<?"@) {
        Some(behind(s, "?>"@, i + 2))
    } else {
        None
    }
}

/// How many elements are open where most are, from `i` on and with so many open
/// there. An element that is empty counts as one that is not ended.
pub open spec fn deepest(s: Seq<char>, i: int, open: int) -> int
    decreases s.len() - i,
{
    if i < 0 || i >= s.len() {
        open
    } else if s[i] != '<' {
        deepest(s, i + 1, open)
    } else {
        match veil_end(s, i) {
            Some(end) => if i < end <= s.len() {
                deepest(s, end, open)
            } else {
                open
            },
            None => if goes_on(s, i, "</"@) {
                larger(
                    open,
                    deepest(
                        s,
                        i + 1,
                        if open > 0 {
                            open - 1
                        } else {
                            0
                        },
                    ),
                )
            } else {
                deepest(s, i + 1, open + 1)
            },
        }
    }
}

pub open spec fn larger(a: int, b: int) -> int {
    if a > b {
        a
    } else {
        b
    }
}

/// How deep a text is nested, at most.
pub open spec fn nesting(s: Seq<char>) -> int {
    deepest(s, 0, 0)
}

proof fn lemma_deepest(s: Seq<char>, i: int, open: int)
    ensures
        deepest(s, i, open) >= open,
    decreases s.len() - i,
{
    if 0 <= i < s.len() {
        if s[i] != '<' {
            lemma_deepest(s, i + 1, open);
        } else {
            match veil_end(s, i) {
                Some(end) => {
                    if i < end <= s.len() {
                        lemma_deepest(s, end, open);
                    }
                },
                None => {
                    lemma_deepest(s, i + 1, open + 1);
                },
            }
        }
    }
}

fn does_go_on(v: &Vec<char>, i: usize, pat: &str) -> (r: bool)
    requires
        i <= v@.len(),
    ensures
        r == goes_on(v@, i as int, pat@),
{
    let p: Vec<char> = text::chars_of(pat);
    if v.len() - i < p.len() {
        return false;
    }
    let piece: Vec<char> = text::copy_chars(v.as_slice(), i, i + p.len());
    text::same_chars(piece.as_slice(), p.as_slice())
}

fn find_behind(v: &Vec<char>, pat: &str, from: usize) -> (r: usize)
    requires
        from <= v@.len(),
    ensures
        r == behind(v@, pat@, from as int),
        from <= r <= v@.len(),
{
    let p: Vec<char> = text::chars_of(pat);
    let len: usize = v.len();
    match text::find_chars(v.as_slice(), p.as_slice(), from) {
        Some(k) => k + p.len(),
        None => len,
    }
}

fn find_veil_end(v: &Vec<char>, i: usize) -> (r: Option<usize>)
    requires
        i < v@.len(),
    ensures
        match veil_end(v@, i as int) {
            Some(end) => r matches Some(k) && k == end && i < k <= v@.len(),
            None => r is None,
        },
{
    proof {
        reveal_strlit("<!--");
        reveal_strlit("<![CDATA[");
        reveal_strlit("<?");
        assert("<!--"@.len() == 4 && "<![CDATA["@.len() == 9 && "<?"@.len() == 2);
    }
    let len: usize = v.len();
    assert(i < len);
    if does_go_on(v, i, "<!--") {
        Some(find_behind(v, "-->", i + 4))
    } else if does_go_on(v, i, "<![CDATA[") {
        Some(find_behind(v, "]]>", i + 9))
    } else if does_go_on(v, i, "<?") {
        Some(find_behind(v, "?>", i + 2))
    } else {
        None
    }
}

/// Whether a text is nested no deeper than it may be.
fn is_shallow(body: &str) -> (r: bool)
    ensures
        r == (nesting(body@) <= MAX_NESTING),
{
    let v: Vec<char> = text::chars_of(body);
    let ghost s = v@;
    let mut open: usize = 0;
    let mut i: usize = 0;
    while i < v.len()
        invariant
            i <= v@.len(),
            s == v@,
            s == body@,
            open <= MAX_NESTING,
            nesting(s) <= MAX_NESTING <==> deepest(s, i as int, open as int) <= MAX_NESTING,
        decreases v@.len() - i,
    {
        if v[i] != '<' {
            i += 1;
            continue;
        }
        match find_veil_end(&v, i) {
            Some(end) => {
                i = end;
            },
            None => {
                if does_go_on(&v, i, "</") {
                    if open > 0 {
                        open -= 1;
                    }
                } else {
                    open += 1;
                    if open > MAX_NESTING {
                        proof {
                            lemma_deepest(s, i + 1, open as int);
                        }
                        return false;
                    }
                }
                i += 1;
            },
        }
    }
    true
}

/// What `roxmltree::Document::parse` makes of a text: its nodes in document
/// order, the root first, or nothing if it is not XML.
pub uninterp spec fn xml_nodes(body: Seq<char>) -> Option<Seq<(Option<usize>, bool, Seq<char>, Option<Seq<char>>)>>;

/// `roxmltree::Document::parse`, and of each node that `descendants` lists its
/// parent's place in that list, whether it is an element, its local tag name
/// and its text. It calls itself for an element in an element, so the nesting is
/// bounded by what the stack holds.
#[verifier::external_body]
fn parse_xml(body: &str) -> (r: Option<Vec<XmlNode>>)
    requires
        nesting(body@) <= MAX_NESTING,
    ensures
        match r {
            Some(v) => xml_nodes(body@) == Some(views(v@)),
            None => xml_nodes(body@) is None,
        },
{
    let doc = roxmltree::Document::parse(body).ok()?;
    Some(
        doc.descendants().map(
            |n| XmlNode {
                parent: n.parent().map(|p| p.id().get_usize()),
                element: n.is_element(),
                tag: n.tag_name().name().to_string(),
                text: n.text().map(str::to_string),
            },
        ).collect(),
    )
}

/// The nodes of a text; none where it is no XML, or nested too deep to be read.
pub open spec fn nodes_of(body: Seq<char>) -> Option<Seq<NodeView>> {
    if nesting(body) <= MAX_NESTING {
        xml_nodes(body)
    } else {
        None
    }
}

/// Reads a text.
pub fn read_xml(body: &str) -> (r: Option<Vec<XmlNode>>)
    ensures
        match r {
            Some(v) => nodes_of(body@) == Some(views(v@)),
            None => nodes_of(body@) is None,
        },
{
    if is_shallow(body) {
        parse_xml(body)
    } else {
        None
    }
}

/// Whether the node at `i` is an element of this name.
pub open spec fn is_tag(s: Seq<NodeView>, i: int, name: Seq<char>) -> bool {
    s[i].1 && s[i].2 == name
}

/// Where the first element of this name at or behind `from` stands.
pub open spec fn first_tag(s: Seq<NodeView>, name: Seq<char>, from: int) -> Option<int>
    decreases s.len() - from,
{
    if from < 0 || from >= s.len() {
        None
    } else if is_tag(s, from, name) {
        Some(from)
    } else {
        first_tag(s, name, from + 1)
    }
}

/// Where the first element that stands directly in the node at `p` is.
pub open spec fn first_element_in(s: Seq<NodeView>, p: int, from: int) -> Option<int>
    decreases s.len() - from,
{
    if from < 0 || from >= s.len() {
        None
    } else if s[from].1 && (s[from].0 matches Some(q) && q == p) {
        Some(from)
    } else {
        first_element_in(s, p, from + 1)
    }
}

pub open spec fn text_or_empty(n: NodeView) -> Seq<char> {
    match n.3 {
        Some(t) => t,
        None => Seq::empty(),
    }
}

/// The content of a `value`: the text of the typed element in it, or its own
/// where it is untyped, without the white space around it.
pub open spec fn value_text(s: Seq<NodeView>, v: int) -> Seq<char> {
    text::trim(
        match first_element_in(s, v, 0) {
            Some(t) => text_or_empty(s[t]),
            None => text_or_empty(s[v]),
        },
    )
}

/// The first scalar value of a response.
pub open spec fn scalar_of(s: Seq<NodeView>) -> Option<Seq<char>> {
    match first_tag(s, "value"@, 0) {
        Some(v) => Some(value_text(s, v)),
        None => None,
    }
}

/// Whether the node at `i` is the node at `d` or stands somewhere in it.
pub open spec fn inside(s: Seq<NodeView>, i: int, d: int) -> bool
    decreases i,
{
    if i == d {
        true
    } else if i <= 0 || i >= s.len() {
        false
    } else {
        match s[i].0 {
            Some(p) => p < i && inside(s, p as int, d),
            None => false,
        }
    }
}

/// The strings of the `value`s among the first `n` nodes that are in the node
/// at `d`, but for the empty ones.
pub open spec fn strings_in(s: Seq<NodeView>, d: int, n: int) -> Seq<Seq<char>>
    decreases n,
{
    if n <= 0 {
        Seq::empty()
    } else {
        let front = strings_in(s, d, n - 1);
        if is_tag(s, n - 1, "value"@) && inside(s, n - 1, d) && value_text(s, n - 1).len() > 0 {
            front.push(value_text(s, n - 1))
        } else {
            front
        }
    }
}

/// The strings under the `data` elements among the first `n` nodes.
pub open spec fn strings_of(s: Seq<NodeView>, n: int) -> Seq<Seq<char>>
    decreases n,
{
    if n <= 0 {
        Seq::empty()
    } else {
        let front = strings_of(s, n - 1);
        if is_tag(s, n - 1, "data"@) {
            front + strings_in(s, n - 1, s.len() as int)
        } else {
            front
        }
    }
}

/// Whether there is an element of this name.
pub open spec fn has_tag(s: Seq<NodeView>, name: Seq<char>) -> bool {
    first_tag(s, name, 0) is Some
}

fn tag_at(v: &[XmlNode], i: usize, name: &str) -> (r: bool)
    requires
        i < v@.len(),
    ensures
        r == is_tag(views(v@), i as int, name@),
{
    v[i].element && text::same(v[i].tag.as_str(), name)
}

/// Where the first element of a name stands.
pub fn find_tag(v: &[XmlNode], name: &str) -> (r: Option<usize>)
    ensures
        match first_tag(views(v@), name@, 0) {
            Some(i) => r matches Some(k) && k == i && 0 <= i < v@.len(),
            None => r is None,
        },
{
    let mut i: usize = 0;
    while i < v.len()
        invariant
            i <= v@.len(),
            first_tag(views(v@), name@, 0) == first_tag(views(v@), name@, i as int),
        decreases v@.len() - i,
    {
        if tag_at(v, i, name) {
            return Some(i);
        }
        i += 1;
    }
    None
}

fn node_text(n: &XmlNode) -> (r: String)
    ensures
        r@ == text_or_empty(n@),
{
    match &n.text {
        Some(t) => t.clone(),
        None => String::new(),
    }
}

fn read_value(v: &[XmlNode], at: usize) -> (r: String)
    requires
        at < v@.len(),
    ensures
        r@ == value_text(views(v@), at as int),
{
    let mut i: usize = 0;
    while i < v.len()
        invariant
            i <= v@.len(),
            at < v@.len(),
            first_element_in(views(v@), at as int, 0) == first_element_in(
                views(v@),
                at as int,
                i as int,
            ),
        decreases v@.len() - i,
    {
        assert(views(v@)[i as int] == v@[i as int]@);
        if v[i].element && v[i].parent == Some(at) {
            return text::trimmed(node_text(&v[i]).as_str());
        }
        i += 1;
    }
    text::trimmed(node_text(&v[at]).as_str())
}

/// The first scalar value of a response.
pub fn scalar(v: &[XmlNode]) -> (r: Option<String>)
    ensures
        match scalar_of(views(v@)) {
            Some(t) => r matches Some(s) && s@ == t,
            None => r is None,
        },
{
    match find_tag(v, "value") {
        Some(i) => Some(read_value(v, i)),
        None => None,
    }
}

fn stands_in(v: &[XmlNode], i: usize, d: usize) -> (r: bool)
    requires
        i < v@.len(),
    ensures
        r == inside(views(v@), i as int, d as int),
    decreases i,
{
    if i == d {
        return true;
    }
    if i == 0 {
        return false;
    }
    assert(views(v@)[i as int] == v@[i as int]@);
    match v[i].parent {
        Some(p) => p < i && stands_in(v, p, d),
        None => false,
    }
}

/// What a list of strings holds.
pub open spec fn texts(v: Seq<String>) -> Seq<Seq<char>> {
    Seq::new(v.len(), |i: int| v[i]@)
}

/// Every string in an array response — the `value`s under `data`.
pub fn strings(v: &[XmlNode]) -> (r: Vec<String>)
    ensures
        texts(r@) == strings_of(views(v@), v@.len() as int),
{
    let mut out: Vec<String> = Vec::new();
    let mut d: usize = 0;
    assert(texts(out@) =~= Seq::empty());
    while d < v.len()
        invariant
            d <= v@.len(),
            texts(out@) == strings_of(views(v@), d as int),
        decreases v@.len() - d,
    {
        if tag_at(v, d, "data") {
            let ghost before = texts(out@);
            let mut i: usize = 0;
            assert(before + strings_in(views(v@), d as int, 0) =~= before);
            while i < v.len()
                invariant
                    i <= v@.len(),
                    d < v@.len(),
                    texts(out@) == before + strings_in(views(v@), d as int, i as int),
                decreases v@.len() - i,
            {
                if tag_at(v, i, "value") && stands_in(v, i, d) {
                    let s = read_value(v, i);
                    if !s.as_str().is_empty() {
                        let ghost so_far = texts(out@);
                        out.push(s);
                        assert(texts(out@) =~= so_far.push(s@));
                        assert(texts(out@) =~= before + strings_in(
                            views(v@),
                            d as int,
                            i + 1,
                        ));
                    }
                }
                i += 1;
            }
        }
        d += 1;
    }
    out
}

} // verus!

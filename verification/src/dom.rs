//! The document model: nodes, elements, attribute maps, and the read-only
//! queries over them.

use vstd::prelude::*;

use crate::strutil::chars_of_str;
use crate::strutil::string_from_chars;

use crate::model::ElementView;
use crate::model::NodeTypeView;
use crate::model::NodeView;

verus! {

/// The mapping an association list denotes: later entries overwrite
/// earlier ones, so the rightmost occurrence of a name decides its value.
pub open spec fn assoc_view(s: Seq<(String, String)>) -> Map<Seq<char>, Seq<char>>
    decreases s.len(),
{
    if s.len() == 0 {
        Map::empty()
    } else {
        assoc_view(s.drop_last()).insert(s.last().0@, s.last().1@)
    }
}

/// The character sequences of a sequence of strings.
pub open spec fn strings_view(s: Seq<String>) -> Seq<Seq<char>> {
    s.map_values(|x: String| x@)
}

/// Splitting `s` on single spaces, read from position `i`, with `cur` the
/// token under construction and `acc` the tokens already complete. Every
/// space ends a token, so consecutive spaces yield empty tokens, and the
/// last token is pushed when the input ends.
pub open spec fn split_spaces_rec(
    s: Seq<char>,
    i: int,
    cur: Seq<char>,
    acc: Seq<Seq<char>>,
) -> Seq<Seq<char>>
    decreases s.len() - i,
        when 0 <= i <= s.len()
{
    if i >= s.len() {
        acc.push(cur)
    } else if s[i] == ' ' {
        split_spaces_rec(s, i + 1, Seq::empty(), acc.push(cur))
    } else {
        split_spaces_rec(s, i + 1, cur.push(s[i]), acc)
    }
}

/// The tokens of `s` split on single spaces.
pub open spec fn split_spaces(s: Seq<char>) -> Seq<Seq<char>> {
    split_spaces_rec(s, 0, Seq::empty(), Seq::empty())
}

/// An attribute mapping from names to values. Writing a name that is
/// already present overwrites its value.
#[derive(Debug, PartialEq, Eq, Clone)]
pub struct AttrMap {
    entries: Vec<(String, String)>,
}

impl View for AttrMap {
    type V = Map<Seq<char>, Seq<char>>;

    closed spec fn view(&self) -> Map<Seq<char>, Seq<char>> {
        assoc_view(self.entries@)
    }
}

impl AttrMap {
    /// An empty attribute mapping.
    pub fn new() -> (r: AttrMap)
        ensures
            r@ == Map::<Seq<char>, Seq<char>>::empty(),
    {
        AttrMap { entries: Vec::new() }
    }

    /// Binds `name` to `value`, overwriting any earlier binding of `name`.
    pub fn insert(&mut self, name: String, value: String)
        ensures
            final(self)@ == old(self)@.insert(name@, value@),
    {
        let ghost pre = self.entries@;
        let ghost n = name@;
        let ghost v = value@;
        self.entries.push((name, value));
        proof {
            assert(self.entries@.drop_last() =~= pre);
            assert(self@ =~= old(self)@.insert(n, v));
        }
    }

    /// Looks `key` up in the mapping.
    pub fn get(&self, key: &String) -> (r: Option<String>)
        ensures
            match r {
                Some(v) => self@.contains_key(key@) && v@ == self@[key@],
                None => !self@.contains_key(key@),
            },
    {
        let mut i: usize = self.entries.len();
        while i > 0
            invariant
                i <= self.entries.len(),
                forall|j: int| i <= j < self.entries@.len() ==> self.entries@[j].0@ != key@,
            decreases i,
        {
            i = i - 1;
            if self.entries[i].0 == *key {
                proof {
                    lemma_assoc_view_match(self.entries@, i as int, key@);
                }
                return Some(self.entries[i].1.clone());
            }
        }
        proof {
            lemma_assoc_view_no_match(self.entries@, key@);
        }
        None
    }
}

/// If position `i` holds the rightmost entry named `k`, the mapping binds
/// `k` to that entry's value.
proof fn lemma_assoc_view_match(s: Seq<(String, String)>, i: int, k: Seq<char>)
    requires
        0 <= i < s.len(),
        s[i].0@ == k,
        forall|j: int| i < j < s.len() ==> s[j].0@ != k,
    ensures
        assoc_view(s).contains_key(k),
        assoc_view(s)[k] == s[i].1@,
    decreases s.len(),
{
    if i == s.len() - 1 {
    } else {
        assert(forall|j: int| i < j < s.drop_last().len() ==> s.drop_last()[j].0@ != k);
        lemma_assoc_view_match(s.drop_last(), i, k);
    }
}

/// A name no entry carries is not bound by the mapping.
proof fn lemma_assoc_view_no_match(s: Seq<(String, String)>, k: Seq<char>)
    requires
        forall|j: int| 0 <= j < s.len() ==> s[j].0@ != k,
    ensures
        !assoc_view(s).contains_key(k),
    decreases s.len(),
{
    if s.len() > 0 {
        lemma_assoc_view_no_match(s.drop_last(), k);
    }
}

/// One element of the tree: a tag name, case exactly as scanned, and its
/// attributes.
#[derive(Debug, PartialEq, Eq, Clone)]
pub struct ElementData {
    /// The tag name, case preserved.
    pub tag_name: String,
    /// The attribute mapping.
    pub attributes: AttrMap,
}

impl View for ElementData {
    type V = ElementView;

    open spec fn view(&self) -> ElementView {
        ElementView { tag_name: self.tag_name@, attributes: self.attributes@ }
    }
}

/// A node's payload: a closed sum of exactly three variants.
#[derive(Debug, PartialEq, Eq, Clone)]
pub enum NodeType {
    /// A run of text.
    Text(String),
    /// An element with attributes.
    Element(ElementData),
    /// A comment.
    Comment(String),
}

impl View for NodeType {
    type V = NodeTypeView;

    open spec fn view(&self) -> NodeTypeView {
        match self {
            NodeType::Text(s) => NodeTypeView::Text(s@),
            NodeType::Element(e) => NodeTypeView::Element(e@),
            NodeType::Comment(s) => NodeTypeView::Comment(s@),
        }
    }
}

/// One node of the document tree, owning its children.
#[derive(Debug, PartialEq, Eq)]
pub struct Node {
    /// The node's children, in document order.
    pub children: Vec<Node>,
    /// The node's payload.
    pub node_type: NodeType,
}

/// The model of a node, computed depth-first.
pub open spec fn node_view(n: Node) -> NodeView
    decreases n, 0nat,
{
    NodeView { node_type: n.node_type@, children: forest_view_rec(n.children@, 0) }
}

/// The models of the nodes of `s` from position `i` on.
pub open spec fn forest_view_rec(s: Seq<Node>, i: int) -> Seq<NodeView>
    decreases s, s.len() - i,
{
    if 0 <= i < s.len() {
        seq![node_view(s[i])] + forest_view_rec(s, i + 1)
    } else {
        Seq::empty()
    }
}

/// The models of an ordered sequence of sibling nodes.
pub open spec fn forest_view(s: Seq<Node>) -> Seq<NodeView> {
    forest_view_rec(s, 0)
}

impl View for Node {
    type V = NodeView;

    open spec fn view(&self) -> NodeView {
        node_view(*self)
    }
}

/// Reading a concatenation from the start of its right part reads the
/// right part.
proof fn lemma_forest_view_rec_shift(a: Seq<Node>, b: Seq<Node>, k: int)
    requires
        0 <= k <= b.len(),
    ensures
        forest_view_rec(a + b, a.len() + k) == forest_view_rec(b, k),
    decreases b.len() - k,
{
    if k < b.len() {
        lemma_forest_view_rec_shift(a, b, k + 1);
        assert((a + b)[a.len() + k] == b[k]);
    }
}

/// Reading a concatenation from a position in its left part reads the
/// rest of the left part and then the right part.
proof fn lemma_forest_view_rec_concat(a: Seq<Node>, b: Seq<Node>, i: int)
    requires
        0 <= i <= a.len(),
    ensures
        forest_view_rec(a + b, i) == forest_view_rec(a, i) + forest_view_rec(b, 0),
    decreases a.len() - i,
{
    if i < a.len() {
        lemma_forest_view_rec_concat(a, b, i + 1);
        assert((a + b)[i] == a[i]);
        assert(forest_view_rec(a + b, i) =~= forest_view_rec(a, i) + forest_view_rec(b, 0));
    } else {
        lemma_forest_view_rec_shift(a, b, 0);
        assert(forest_view_rec(a + b, a.len() as int) == forest_view_rec(a + b, i));
        assert(forest_view_rec(a, i) + forest_view_rec(b, 0) =~= forest_view_rec(b, 0));
    }
}

/// The model of a concatenation of sibling sequences is the concatenation
/// of their models.
pub proof fn lemma_forest_view_concat(a: Seq<Node>, b: Seq<Node>)
    ensures
        forest_view(a + b) == forest_view(a) + forest_view(b),
{
    lemma_forest_view_rec_concat(a, b, 0);
}

/// The model of one appended node is one appended model.
pub proof fn lemma_forest_view_push(s: Seq<Node>, n: Node)
    ensures
        forest_view(s.push(n)) == forest_view(s).push(node_view(n)),
{
    assert(s.push(n) =~= s + seq![n]);
    lemma_forest_view_concat(s, seq![n]);
    assert(forest_view_rec(seq![n], 1) =~= Seq::<NodeView>::empty());
    assert(forest_view(seq![n]) =~= seq![node_view(n)]);
    assert(forest_view(s).push(node_view(n)) =~= forest_view(s) + seq![node_view(n)]);
}


impl ElementData {
    /// Builds an element from a tag name and an attribute mapping.
    pub fn new(tag_name: String, attributes: AttrMap) -> (r: ElementData)
        ensures
            r@ == (ElementView { tag_name: tag_name@, attributes: attributes@ }),
    {
        ElementData { tag_name, attributes }
    }

    /// The class tokens of the element: the value of its `class`
    /// attribute split on single spaces, in order, or no tokens if the
    /// attribute is absent. Consecutive spaces yield empty tokens, which
    /// are kept.
    pub fn get_classes(&self) -> (r: Vec<String>)
        ensures
            self@.attributes.contains_key("class"@) ==> strings_view(r@) == split_spaces(
                self@.attributes["class"@],
            ),
            !self@.attributes.contains_key("class"@) ==> r@ == Seq::<String>::empty(),
    {
        let key = "class".to_owned();
        match self.attributes.get(&key) {
            None => Vec::new(),
            Some(classlist) => {
                let ghost value = classlist@;
                let chars = chars_of_str(classlist.as_str());
                let mut tokens: Vec<String> = Vec::new();
                let mut cur: Vec<char> = Vec::new();
                let mut i: usize = 0;
                proof {
                    assert(strings_view(tokens@) =~= Seq::<Seq<char>>::empty());
                }
                while i < chars.len()
                    invariant
                        i <= chars@.len(),
                        chars@ == value,
                        split_spaces_rec(value, i as int, cur@, strings_view(tokens@))
                            == split_spaces(value),
                    decreases chars@.len() - i,
                {
                    let ghost toks = strings_view(tokens@);
                    let ghost cur0 = cur@;
                    if chars[i] == ' ' {
                        tokens.push(string_from_chars(cur));
                        cur = Vec::new();
                        proof {
                            assert(strings_view(tokens@) =~= toks.push(cur0));
                        }
                    } else {
                        cur.push(chars[i]);
                    }
                    i = i + 1;
                }
                let ghost toks = strings_view(tokens@);
                let ghost cur0 = cur@;
                tokens.push(string_from_chars(cur));
                proof {
                    assert(strings_view(tokens@) =~= toks.push(cur0));
                    assert(split_spaces_rec(value, chars@.len() as int, cur0, toks) == toks.push(
                        cur0,
                    ));
                }
                tokens
            },
        }
    }

    /// The value of the `id` attribute, if present.
    pub fn get_id(&self) -> (r: Option<String>)
        ensures
            match r {
                Some(v) => self@.attributes.contains_key("id"@) && v@ == self@.attributes["id"@],
                None => !self@.attributes.contains_key("id"@),
            },
    {
        let key = "id".to_owned();
        self.attributes.get(&key)
    }
}

/// Query idempotence: the read-only queries are functions of the element
/// alone. Any two results that the contract of `get_id` admits for the
/// same element agree, and so do any two results that the contract of
/// `get_classes` admits, so repeated calls return identical contents.
pub proof fn lemma_query_idempotent(
    e: &ElementData,
    id1: Option<String>,
    id2: Option<String>,
    cls1: Seq<String>,
    cls2: Seq<String>,
)
    requires
        match id1 {
            Some(v) => e@.attributes.contains_key("id"@) && v@ == e@.attributes["id"@],
            None => !e@.attributes.contains_key("id"@),
        },
        match id2 {
            Some(v) => e@.attributes.contains_key("id"@) && v@ == e@.attributes["id"@],
            None => !e@.attributes.contains_key("id"@),
        },
        e@.attributes.contains_key("class"@) ==> strings_view(cls1) == split_spaces(
            e@.attributes["class"@],
        ),
        !e@.attributes.contains_key("class"@) ==> cls1 == Seq::<String>::empty(),
        e@.attributes.contains_key("class"@) ==> strings_view(cls2) == split_spaces(
            e@.attributes["class"@],
        ),
        !e@.attributes.contains_key("class"@) ==> cls2 == Seq::<String>::empty(),
    ensures
        match (id1, id2) {
            (Some(v1), Some(v2)) => v1@ == v2@,
            (None, None) => true,
            _ => false,
        },
        strings_view(cls1) == strings_view(cls2),
{
}

/// `n` spaces of indentation.
pub open spec fn spaces(n: int) -> Seq<char>
    decreases n,
{
    if n <= 0 {
        Seq::empty()
    } else {
        spaces(n - 1).push(' ')
    }
}

/// The indentation of the next nesting level: two more spaces, unless the
/// machine bound is reached, where the level stays put.
pub open spec fn next_indent(indent: int) -> int {
    if indent + 2 <= usize::MAX as int {
        indent + 2
    } else {
        indent
    }
}

/// What rendering one node yields: text and comment nodes print their raw
/// content on one indented line (comments between comment markers), and
/// an element prints an opening-tag line, its children two spaces deeper,
/// and a closing-tag line.
pub open spec fn sp_render(n: NodeView, indent: int) -> Seq<char>
    decreases n, 0nat,
{
    match n.node_type {
        NodeTypeView::Text(t) => spaces(indent) + t + seq!['\n'],
        NodeTypeView::Comment(c) => spaces(indent) + seq!['<', '!', '-', '-'] + c + seq![
            '-',
            '-',
            '>',
            '\n',
        ],
        NodeTypeView::Element(e) => spaces(indent) + seq!['<'] + e.tag_name + seq!['>', '\n']
            + sp_render_forest(n.children, 0, next_indent(indent)) + spaces(indent) + seq![
            '<',
            '/',
        ] + e.tag_name + seq!['>', '\n'],
    }
}

/// What rendering the nodes of `ns` from position `k` on yields, in
/// document order.
pub open spec fn sp_render_forest(ns: Seq<NodeView>, k: int, indent: int) -> Seq<char>
    decreases ns, ns.len() - k,
{
    if 0 <= k < ns.len() {
        sp_render(ns[k], indent) + sp_render_forest(ns, k + 1, indent)
    } else {
        Seq::empty()
    }
}

/// The model of a sibling sequence has one entry per node, each the model
/// of the node at its position.
pub proof fn lemma_forest_view_index(s: Seq<Node>)
    ensures
        forest_view(s).len() == s.len(),
        forall|k: int| 0 <= k < s.len() ==> forest_view(s)[k] == node_view(s[k]),
{
    lemma_forest_view_rec_index(s, 0);
}

/// The tail model read from `i` has one entry per remaining node.
proof fn lemma_forest_view_rec_index(s: Seq<Node>, i: int)
    requires
        0 <= i <= s.len(),
    ensures
        forest_view_rec(s, i).len() == s.len() - i,
        forall|k: int| 0 <= k < s.len() - i ==> forest_view_rec(s, i)[k] == node_view(s[i + k]),
    decreases s.len() - i,
{
    if i < s.len() {
        lemma_forest_view_rec_index(s, i + 1);
    }
}

/// Builds a string of `n` spaces.
fn make_spaces(n: usize) -> (r: String)
    ensures
        r@ == spaces(n as int),
{
    let mut v: Vec<char> = Vec::new();
    let mut i: usize = 0;
    while i < n
        invariant
            i <= n,
            v@ == spaces(i as int),
        decreases n - i,
    {
        v.push(' ');
        i = i + 1;
    }
    string_from_chars(v)
}

/// Renders the tree under `n` for inspection, in document order, one
/// node per line, children indented two spaces deeper than their parent.
pub fn render_tree(n: &Node, indent_size: usize) -> (r: String)
    ensures
        r@ == sp_render(n@, indent_size as int),
    decreases *n, 0nat,
{
    let indent = make_spaces(indent_size);
    let mut out = String::new();
    match &n.node_type {
        NodeType::Text(t) => {
            out.append(indent.as_str());
            out.append(t.as_str());
            out.append("\n");
            proof {
                reveal_strlit("\n");
                assert(out@ =~= spaces(indent_size as int) + t@ + seq!['\n']);
            }
        },
        NodeType::Comment(c) => {
            out.append(indent.as_str());
            out.append("<!--");
            out.append(c.as_str());
            out.append("-->\n");
            proof {
                reveal_strlit("<!--");
                reveal_strlit("-->\n");
                assert("<!--"@ =~= seq!['<', '!', '-', '-']);
                assert("-->\n"@ =~= seq!['-', '-', '>', '\n']);
                assert(out@ =~= spaces(indent_size as int) + seq!['<', '!', '-', '-'] + c@ + seq![
                    '-',
                    '-',
                    '>',
                    '\n',
                ]);
            }
        },
        NodeType::Element(e) => {
            out.append(indent.as_str());
            out.append("<");
            out.append(e.tag_name.as_str());
            out.append(">\n");
            let ghost head = spaces(indent_size as int) + seq!['<'] + e.tag_name@ + seq!['>', '\n'];
            proof {
                reveal_strlit("<");
                reveal_strlit(">\n");
                assert("<"@ =~= seq!['<']);
                assert(">\n"@ =~= seq!['>', '\n']);
                assert(out@ =~= head);
                lemma_forest_view_index(n.children@);
            }
            let child_indent = if indent_size <= usize::MAX - 2 {
                indent_size + 2
            } else {
                indent_size
            };
            let ghost kids = n@.children;
            let mut k: usize = 0;
            while k < n.children.len()
                invariant
                    k <= n.children@.len(),
                    kids.len() == n.children@.len(),
                    forall|m: int|
                        0 <= m < n.children@.len() ==> kids[m] == node_view(n.children@[m]),
                    child_indent as int == next_indent(indent_size as int),
                    out@ + sp_render_forest(kids, k as int, child_indent as int) == head
                        + sp_render_forest(kids, 0, child_indent as int),
                decreases n.children@.len() - k,
            {
                let piece = render_tree(&n.children[k], child_indent);
                let ghost out_a = out@;
                out.append(piece.as_str());
                proof {
                    assert(sp_render_forest(kids, k as int, child_indent as int) == sp_render(
                        kids[k as int],
                        child_indent as int,
                    ) + sp_render_forest(kids, k + 1, child_indent as int));
                    assert((out_a + piece@) + sp_render_forest(kids, k + 1, child_indent as int)
                        =~= out_a + (piece@ + sp_render_forest(kids, k + 1, child_indent as int)));
                }
                k = k + 1;
            }
            out.append(indent.as_str());
            out.append("</");
            out.append(e.tag_name.as_str());
            out.append(">\n");
            proof {
                reveal_strlit("</");
                reveal_strlit(">\n");
                assert("</"@ =~= seq!['<', '/']);
                assert(out@ =~= head + sp_render_forest(kids, 0, next_indent(indent_size as int))
                    + spaces(indent_size as int) + seq!['<', '/'] + e.tag_name@ + seq!['>', '\n']);
            }
        },
    }
    out
}

impl Node {
    /// Builds a node from a payload and a sequence of children.
    pub fn new(node_type: NodeType, children: Vec<Node>) -> (r: Node)
        ensures
            r@ == (NodeView { node_type: node_type@, children: forest_view(children@) }),
    {
        Node { children, node_type }
    }
}

} // verus!

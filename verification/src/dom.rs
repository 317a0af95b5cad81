//! Document tree: text leaves and elements with attributes and children.
use vstd::prelude::*;

use crate::assoc::{assoc_get, assoc_put, lemma_assoc_get_found, lemma_assoc_get_none,
    lemma_assoc_put_found, lemma_assoc_put_none, lemma_first_occurrence};
use crate::strutil::{chars_to_string, spec_is_space, is_space, str_eq, to_chars};

verus! {

/// Attribute name/value map with unique keys.
#[derive(Debug)]
pub struct AttrMap {
    pub entries: Vec<(String, String)>,
}

impl View for AttrMap {
    type V = Seq<(Seq<char>, Seq<char>)>;

    open spec fn view(&self) -> Seq<(Seq<char>, Seq<char>)> {
        self.entries@.map(|i: int, p: (String, String)| (p.0@, p.1@))
    }
}

impl AttrMap {
    pub fn new() -> (m: AttrMap)
        ensures
            m@ =~= Seq::<(Seq<char>, Seq<char>)>::empty(),
    {
        AttrMap { entries: Vec::new() }
    }

    /// Value of the attribute with the given name, if present.
    pub fn get(&self, name: &str) -> (r: Option<&String>)
        ensures
            match r {
                Option::Some(v) => assoc_get(self@, name@) == Option::Some(v@),
                Option::None => assoc_get(self@, name@) == Option::None::<Seq<char>>,
            },
    {
        let n = self.entries.len();
        let mut i: usize = 0;
        while i < n
            invariant
                n == self.entries.len(),
                i <= n,
                forall|j: int| 0 <= j < i ==> self@[j].0 != name@,
            decreases n - i,
        {
            if str_eq(self.entries[i].0.as_str(), name) {
                proof {
                    lemma_assoc_get_found(self@, name@, i as int);
                }
                return Option::Some(&self.entries[i].1);
            }
            i = i + 1;
        }
        proof {
            lemma_assoc_get_none(self@, name@);
        }
        Option::None
    }

    /// Set the attribute, overwriting an existing entry with the same name.
    pub fn insert(&mut self, name: String, value: String)
        ensures
            final(self)@ =~= assoc_put(old(self)@, name@, value@),
    {
        let n = self.entries.len();
        let mut i: usize = 0;
        while i < n
            invariant
                n == self.entries.len(),
                i <= n,
                self == old(self),
                forall|j: int| 0 <= j < i ==> self@[j].0 != name@,
            decreases n - i,
        {
            if str_eq(self.entries[i].0.as_str(), name.as_str()) {
                proof {
                    lemma_assoc_put_found(old(self)@, name@, value@, i as int);
                }
                self.entries.set(i, (name, value));
                return ;
            }
            i = i + 1;
        }
        proof {
            lemma_assoc_put_none(old(self)@, name@, value@);
        }
        self.entries.push((name, value));
    }
}

/// A document node: children plus the node kind.
#[derive(Debug)]
pub struct Node {
    pub children: Vec<Node>,
    pub node_type: NodeType,
}

/// Kind of a document node: text leaf or element.
#[derive(Debug)]
pub enum NodeType {
    Text(String),
    Element(ElementData),
}

/// The element payload: tag name and attributes.
#[derive(Debug)]
pub struct ElementData {
    pub tag_name: String,
    pub attributes: AttrMap,
}

/// Mathematical image of an `ElementData`.
pub ghost struct ElemV {
    pub tag_name: Seq<char>,
    pub attributes: Seq<(Seq<char>, Seq<char>)>,
}

impl View for ElementData {
    type V = ElemV;

    open spec fn view(&self) -> ElemV {
        ElemV { tag_name: self.tag_name@, attributes: self.attributes@ }
    }
}

/// Mathematical image of a node kind.
pub ghost enum NodeTypeV {
    Text(Seq<char>),
    Element(ElemV),
}

/// Mathematical image of a document node.
pub ghost struct NodeV {
    pub children: Seq<NodeV>,
    pub node_type: NodeTypeV,
}

/// Views of a sequence of nodes.
pub open spec fn view_nodes(s: Seq<Node>) -> Seq<NodeV>
    decreases s,
{
    if s.len() == 0 {
        Seq::empty()
    } else {
        seq![s[0]@] + view_nodes(s.drop_first())
    }
}

impl View for Node {
    type V = NodeV;

    open spec fn view(&self) -> NodeV
        decreases self,
    {
        NodeV {
            children: view_nodes(self.children@),
            node_type: match self.node_type {
                NodeType::Text(s) => NodeTypeV::Text(s@),
                NodeType::Element(e) => NodeTypeV::Element(e@),
            },
        }
    }
}

/// `view_nodes` is the element-wise view.
pub proof fn lemma_view_nodes(s: Seq<Node>)
    ensures
        view_nodes(s).len() == s.len(),
        forall|i: int| 0 <= i < s.len() ==> view_nodes(s)[i] == #[trigger] s[i]@,
    decreases s,
{
    if s.len() > 0 {
        lemma_view_nodes(s.drop_first());
        assert(view_nodes(s) == seq![s[0]@] + view_nodes(s.drop_first()));
        assert forall|i: int| 0 <= i < s.len() implies view_nodes(s)[i] == #[trigger] s[i]@ by {
            if i > 0 {
                assert(s.drop_first()[i - 1] == s[i]);
                assert((seq![s[0]@] + view_nodes(s.drop_first()))[i] == view_nodes(
                    s.drop_first(),
                )[i - 1]);
            }
        }
    }
}

/// Build a text node.
pub fn text(data: String) -> (n: Node)
    ensures
        n@.node_type == NodeTypeV::Text(data@),
        n@.children.len() == 0,
{
    let n = Node { children: Vec::new(), node_type: NodeType::Text(data) };
    proof {
        lemma_view_nodes(n.children@);
    }
    n
}

/// Build an element node.
pub fn elem(name: String, attrs: AttrMap, children: Vec<Node>) -> (n: Node)
    ensures
        n@.node_type == NodeTypeV::Element(ElemV { tag_name: name@, attributes: attrs@ }),
        n@.children == view_nodes(children@),
{
    Node { children, node_type: NodeType::Element(ElementData { tag_name: name, attributes: attrs }) }
}

/// Split a character sequence into its whitespace-separated tokens,
/// carrying the token built so far.
pub open spec fn split_ws_go(s: Seq<char>, cur: Seq<char>) -> Seq<Seq<char>>
    decreases s.len(),
{
    if s.len() == 0 {
        if cur.len() == 0 {
            Seq::empty()
        } else {
            seq![cur]
        }
    } else if spec_is_space(s[0]) {
        if cur.len() == 0 {
            split_ws_go(s.drop_first(), Seq::empty())
        } else {
            seq![cur] + split_ws_go(s.drop_first(), Seq::empty())
        }
    } else {
        split_ws_go(s.drop_first(), cur.push(s[0]))
    }
}

/// Whitespace-separated tokens of a character sequence.
pub open spec fn spec_split_ws(s: Seq<char>) -> Seq<Seq<char>> {
    split_ws_go(s, Seq::empty())
}

/// Split a string into its whitespace-separated tokens.
pub fn split_ws(s: &str) -> (out: Vec<String>)
    ensures
        out@.map(|i: int, t: String| t@) =~= spec_split_ws(s@),
{
    let chars = to_chars(s);
    let len = chars.len();
    let mut out: Vec<String> = Vec::new();
    let mut cur: Vec<char> = Vec::new();
    let mut i: usize = 0;
    proof {
        assert(s@.skip(0) =~= s@);
    }
    while i < len
        invariant
            len == chars@.len(),
            chars@ == s@,
            i <= len,
            out@.map(|j: int, t: String| t@) + split_ws_go(s@.skip(i as int), cur@)
                =~= spec_split_ws(s@),
        decreases len - i,
    {
        let ghost rest = s@.skip(i as int);
        let ghost prev = out@.map(|j: int, t: String| t@);
        let ghost cur0 = cur@;
        proof {
            assert(rest.drop_first() =~= s@.skip(i + 1));
            assert(rest[0] == s@[i as int]);
        }
        let c = chars[i];
        if is_space(c) {
            if cur.len() > 0 {
                let tok = chars_to_string(&cur);
                out.push(tok);
                cur = Vec::new();
                proof {
                    assert(split_ws_go(rest, cur0) == seq![cur0] + split_ws_go(
                        s@.skip(i + 1),
                        Seq::empty(),
                    ));
                    assert(out@.map(|j: int, t: String| t@) =~= prev.push(cur0));
                    assert(prev.push(cur0) + split_ws_go(s@.skip(i + 1), Seq::empty()) =~= prev + (
                    seq![cur0] + split_ws_go(s@.skip(i + 1), Seq::empty())));
                }
            } else {
                proof {
                    assert(cur0 =~= Seq::<char>::empty());
                    assert(split_ws_go(rest, cur0) == split_ws_go(s@.skip(i + 1), Seq::empty()));
                }
            }
        } else {
            cur.push(c);
            proof {
                assert(split_ws_go(rest, cur0) == split_ws_go(s@.skip(i + 1), cur0.push(c)));
                assert(cur@ == cur0.push(c));
            }
        }
        proof {
            assert(out@.map(|j: int, t: String| t@) + split_ws_go(s@.skip(i + 1), cur@)
                =~= spec_split_ws(s@));
        }
        i = i + 1;
    }
    proof {
        assert(s@.skip(len as int) =~= Seq::<char>::empty());
    }
    if cur.len() > 0 {
        let tok = chars_to_string(&cur);
        let ghost prev = out@.map(|j: int, t: String| t@);
        out.push(tok);
        proof {
            assert(out@.map(|j: int, t: String| t@) =~= prev.push(tok@));
        }
    }
    out
}

impl ElementData {
    /// The `id` attribute, if present.
    pub fn id(&self) -> (r: Option<&String>)
        ensures
            match r {
                Option::Some(v) => assoc_get(self@.attributes, "id"@) == Option::Some(v@),
                Option::None => assoc_get(self@.attributes, "id"@) == Option::None::<Seq<char>>,
            },
    {
        self.attributes.get("id")
    }

    /// The tokens of the `class` attribute, split on whitespace.
    pub fn classes(&self) -> (out: Vec<String>)
        ensures
            out@.map(|i: int, t: String| t@) == spec_classes(self@),
    {
        match self.attributes.get("class") {
            Option::Some(v) => {
                let toks = split_ws(v.as_str());
                toks
            },
            Option::None => Vec::new(),
        }
    }
}

/// The class tokens of an element: its `class` attribute split on whitespace.
pub open spec fn spec_classes(e: ElemV) -> Seq<Seq<char>> {
    match assoc_get(e.attributes, "class"@) {
        Option::Some(v) => spec_split_ws(v),
        Option::None => Seq::empty(),
    }
}

} // verus!

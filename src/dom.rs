//! The document tree: node variants, their mathematical view, and queries.

use vstd::prelude::*;
use vstd::string::StringExecFns;

verus! {

broadcast use {
    vstd::seq::axiom_seq_index_decreases,
    vstd::std_specs::vec::axiom_vec_decreases_to_view,
    vstd::std_specs::vec::axiom_vec_index_decreases,
};

/// The variant of a node, with its payload.
#[derive(Debug, PartialEq)]
pub enum NodeType {
    /// Text between tags, with surrounding whitespace already removed.
    Text(String),
    /// A tagged element.
    Element(ElementData),
    /// The synthetic root of a parse result.
    Document,
}

/// Tag name and attributes of an element.
///
/// Attributes are kept in the order in which they were first written; a name
/// occurs at most once.
#[derive(Debug, PartialEq)]
pub struct ElementData {
    pub tag_name: String,
    pub attributes: Vec<(String, String)>,
}

/// A node of the tree, owning its children in document order.
#[derive(Debug, PartialEq)]
pub struct Node {
    pub node_type: NodeType,
    pub children: Vec<Node>,
}

/// An attribute list as a sequence of (name, value) pairs.
pub type AttrsView = Seq<(Seq<char>, Seq<char>)>;

/// The mathematical counterpart of `NodeType`.
pub enum KindView {
    Text(Seq<char>),
    Element(Seq<char>, AttrsView),
    Document,
}

/// The mathematical counterpart of `Node`.
pub struct NodeView {
    pub kind: KindView,
    pub children: Seq<NodeView>,
}

/// The view of an attribute vector.
pub open spec fn attrs_view(a: Seq<(String, String)>) -> AttrsView {
    Seq::new(a.len(), |i: int| (a[i].0@, a[i].1@))
}

/// Index of the first entry at or after `i` whose name is `k`, or the length if none is.
pub open spec fn key_index(m: AttrsView, k: Seq<char>, i: int) -> int
    decreases m.len() - i,
{
    if 0 <= i < m.len() && m[i].0 != k {
        key_index(m, k, i + 1)
    } else {
        i
    }
}

/// The value recorded under `k`, if any.
pub open spec fn attr_get(m: AttrsView, k: Seq<char>) -> Option<Seq<char>> {
    let i = key_index(m, k, 0);
    if i < m.len() {
        Some(m[i].1)
    } else {
        None
    }
}

/// `m` with `k` mapped to `v`: an existing entry keeps its place, a new one goes last.
pub open spec fn attr_set(m: AttrsView, k: Seq<char>, v: Seq<char>) -> AttrsView {
    let i = key_index(m, k, 0);
    if i < m.len() {
        m.update(i, (k, v))
    } else {
        m.push((k, v))
    }
}

/// No name occurs twice.
pub open spec fn keys_unique(m: AttrsView) -> bool {
    forall|i: int, j: int| 0 <= i < j < m.len() ==> m[i].0 != m[j].0
}

/// Every element of the tree `v` has attribute names that occur once each.
pub open spec fn names_unique(v: NodeView) -> bool
    decreases v, 0int,
{
    &&& match v.kind {
        KindView::Element(_, a) => keys_unique(a),
        _ => true,
    }
    &&& names_unique_upto(v.children, v.children.len() as int)
}

/// `names_unique` holds of each of the trees `vs[0]`, ..., `vs[i - 1]`.
pub open spec fn names_unique_upto(vs: Seq<NodeView>, i: int) -> bool
    decreases vs, i,
{
    if 0 < i <= vs.len() {
        names_unique_upto(vs, i - 1) && names_unique(vs[i - 1])
    } else {
        true
    }
}

/// `names_unique_upto` over a whole sequence says `names_unique` of each item.
pub proof fn lemma_names_unique_upto(vs: Seq<NodeView>, i: int)
    requires
        0 <= i <= vs.len(),
    ensures
        names_unique_upto(vs, i) <==> forall|j: int| 0 <= j < i ==> #[trigger] names_unique(vs[j]),
    decreases i,
{
    if i > 0 {
        lemma_names_unique_upto(vs, i - 1);
        assert(names_unique_upto(vs, i) == (names_unique_upto(vs, i - 1) && names_unique(vs[i - 1])));
    }
}

/// Facts on `key_index`: it stops at the first entry named `k`, or at the end.
pub proof fn lemma_key_index(m: AttrsView, k: Seq<char>, i: int)
    requires
        0 <= i <= m.len(),
    ensures
        i <= key_index(m, k, i) <= m.len(),
        key_index(m, k, i) < m.len() ==> m[key_index(m, k, i)].0 == k,
        forall|j: int| i <= j < key_index(m, k, i) ==> m[j].0 != k,
    decreases m.len() - i,
{
    if i < m.len() && m[i].0 != k {
        lemma_key_index(m, k, i + 1);
    }
}

/// Recording an attribute keeps names unique.
pub proof fn lemma_attr_set_unique(m: AttrsView, k: Seq<char>, v: Seq<char>)
    requires
        keys_unique(m),
    ensures
        keys_unique(attr_set(m, k, v)),
{
    lemma_key_index(m, k, 0);
}

impl NodeType {
    pub open spec fn view(&self) -> KindView {
        match self {
            NodeType::Text(t) => KindView::Text(t@),
            NodeType::Element(e) => KindView::Element(e.tag_name@, attrs_view(e.attributes@)),
            NodeType::Document => KindView::Document,
        }
    }
}

impl Node {
    pub open spec fn view(&self) -> NodeView
        decreases self,
    {
        NodeView {
            kind: self.node_type.view(),
            children: Seq::new(
                self.children@.len(),
                |i: int|
                    if 0 <= i < self.children@.len() {
                        self.children@[i].view()
                    } else {
                        NodeView { kind: KindView::Document, children: Seq::empty() }
                    },
            ),
        }
    }
}

/// The views of a sequence of nodes.
pub open spec fn views(ns: Seq<Node>) -> Seq<NodeView> {
    Seq::new(ns.len(), |i: int| ns[i]@)
}

/// The view of an optional node.
pub open spec fn opt_view(r: Option<Node>) -> Option<NodeView> {
    match r {
        Some(n) => Some(n@),
        None => None,
    }
}

/// Whether `v` is an element whose `id` attribute is exactly `id`.
pub open spec fn has_id(v: NodeView, id: Seq<char>) -> bool {
    match v.kind {
        KindView::Element(_, a) => attr_get(a, "id"@) == Some(id),
        _ => false,
    }
}

/// The first node, in depth-first pre-order, of the tree `v` that `has_id`.
pub open spec fn find_id(v: NodeView, id: Seq<char>) -> Option<NodeView>
    decreases v, 0int,
{
    if has_id(v, id) {
        Some(v)
    } else {
        find_id_from(v.children, id, 0)
    }
}

/// The first match of `find_id` among the trees `vs[i]`, `vs[i + 1]`, ...
pub open spec fn find_id_from(vs: Seq<NodeView>, id: Seq<char>, i: int) -> Option<NodeView>
    decreases vs, vs.len() - i,
{
    if 0 <= i < vs.len() {
        match find_id(vs[i], id) {
            Some(x) => Some(x),
            None => find_id_from(vs, id, i + 1),
        }
    } else {
        None
    }
}

/// Whether `v` is an element named exactly `name`.
pub open spec fn has_tag(v: NodeView, name: Seq<char>) -> bool {
    match v.kind {
        KindView::Element(t, _) => t == name,
        _ => false,
    }
}

/// Every node of the tree `v` that `has_tag`, in depth-first pre-order.
pub open spec fn tagged(v: NodeView, name: Seq<char>) -> Seq<NodeView>
    decreases v, 0int,
{
    let own: Seq<NodeView> = if has_tag(v, name) {
        seq![v]
    } else {
        Seq::empty()
    };
    own + tagged_upto(v.children, name, v.children.len() as int)
}

/// The matches of `tagged` in the trees `vs[0]`, ..., `vs[i - 1]`, in order.
pub open spec fn tagged_upto(vs: Seq<NodeView>, name: Seq<char>, i: int) -> Seq<NodeView>
    decreases vs, i,
{
    if 0 < i <= vs.len() {
        tagged_upto(vs, name, i - 1) + tagged(vs[i - 1], name)
    } else {
        Seq::empty()
    }
}

impl ElementData {
    /// The value of the attribute `name`, if the element has it.
    pub fn get_attribute(&self, name: &str) -> (r: Option<&String>)
        ensures
            match r {
                Some(v) => attr_get(attrs_view(self.attributes@), name@) == Some(v@),
                None => attr_get(attrs_view(self.attributes@), name@) is None,
            },
    {
        let ghost m = attrs_view(self.attributes@);
        let key = String::from_str(name);
        let mut i: usize = 0;
        while i < self.attributes.len()
            invariant
                i <= self.attributes@.len(),
                m == attrs_view(self.attributes@),
                key@ == name@,
                key_index(m, name@, 0) == key_index(m, name@, i as int),
            decreases self.attributes@.len() - i,
        {
            if self.attributes[i].0 == key {
                return Some(&self.attributes[i].1);
            }
            i += 1;
        }
        None
    }
}

/// Records `k` with value `v`: replaces the value of an existing entry named `k`
/// in place, or appends a new entry.
pub(crate) fn set_attr(attrs: &mut Vec<(String, String)>, k: String, v: String)
    ensures
        attrs_view(final(attrs)@) == attr_set(attrs_view(old(attrs)@), k@, v@),
{
    let ghost m = attrs_view(attrs@);
    let mut i: usize = 0;
    while i < attrs.len()
        invariant
            i <= attrs@.len(),
            m == attrs_view(attrs@),
            m == attrs_view(old(attrs)@),
            key_index(m, k@, 0) == key_index(m, k@, i as int),
        decreases attrs@.len() - i,
    {
        if attrs[i].0 == k {
            assert(m[i as int].0 == k@);
            assert(key_index(m, k@, i as int) == i);
            attrs.set(i, (k, v));
            assert(attrs_view(attrs@) =~= m.update(i as int, (k@, v@)));
            return;
        }
        i += 1;
    }
    attrs.push((k, v));
    assert(attrs_view(attrs@) =~= m.push((k@, v@)));
}

impl Node {
    /// The first element, in depth-first pre-order, whose `id` attribute is
    /// exactly `id`.
    pub fn find_by_id(&self, id: &str) -> (r: Option<&Node>)
        ensures
            match r {
                Some(n) => find_id(self@, id@) == Some(n@),
                None => find_id(self@, id@) is None,
            },
        decreases self,
    {
        if let NodeType::Element(elem_data) = &self.node_type {
            let id_key = String::from_str("id");
            if let Some(elem_id) = elem_data.get_attribute(id_key.as_str()) {
                let target = String::from_str(id);
                if *elem_id == target {
                    return Some(self);
                }
            }
        }
        let mut i: usize = 0;
        while i < self.children.len()
            invariant
                i <= self.children@.len(),
                !has_id(self@, id@),
                find_id(self@, id@) == find_id_from(self@.children, id@, i as int),
            decreases self.children@.len() - i,
        {
            assert(self@.children[i as int] == self.children@[i as int]@);
            if let Some(found) = self.children[i].find_by_id(id) {
                return Some(found);
            }
            i += 1;
        }
        None
    }

    /// Every element named exactly `tag_name`, in depth-first pre-order.
    pub fn get_elements_by_tag_name(&self, tag_name: &str) -> (r: Vec<&Node>)
        ensures
            r@.len() == tagged(self@, tag_name@).len(),
            forall|i: int| 0 <= i < r@.len() ==> r@[i]@ == tagged(self@, tag_name@)[i],
        decreases self,
    {
        let mut results: Vec<&Node> = Vec::new();
        if let NodeType::Element(elem_data) = &self.node_type {
            let wanted = String::from_str(tag_name);
            if elem_data.tag_name == wanted {
                results.push(self);
            }
        }
        let ghost own: Seq<NodeView> = if has_tag(self@, tag_name@) {
            seq![self@]
        } else {
            Seq::empty()
        };
        assert(results@.len() == own.len());
        let mut i: usize = 0;
        while i < self.children.len()
            invariant
                i <= self.children@.len(),
                own == (if has_tag(self@, tag_name@) { seq![self@] } else { Seq::<NodeView>::empty() }),
                results@.len() == (own + tagged_upto(self@.children, tag_name@, i as int)).len(),
                forall|j: int| 0 <= j < results@.len() ==>
                    results@[j]@ == (own + tagged_upto(self@.children, tag_name@, i as int))[j],
            decreases self.children@.len() - i,
        {
            assert(self@.children[i as int] == self.children@[i as int]@);
            let mut found = self.children[i].get_elements_by_tag_name(tag_name);
            let ghost before = results@;
            results.append(&mut found);
            i += 1;
            assert(own + tagged_upto(self@.children, tag_name@, i as int)
                =~= (own + tagged_upto(self@.children, tag_name@, i - 1)) + tagged(self@.children[i - 1], tag_name@));
        }
        results
    }
}

/// A text node holding `data`.
pub fn create_text_node(data: &str) -> (r: Node)
    ensures
        r@ == (NodeView { kind: KindView::Text(data@), children: Seq::empty() }),
{
    let r = Node { node_type: NodeType::Text(String::from_str(data)), children: Vec::new() };
    assert(r@.children =~= Seq::empty());
    r
}

/// An element named `tag_name` with the given attributes and children.
pub fn create_element_node(tag_name: &str, attributes: Vec<(String, String)>, children: Vec<Node>) -> (r: Node)
    ensures
        r@.kind == KindView::Element(tag_name@, attrs_view(attributes@)),
        r.children@ == children@,
{
    Node {
        node_type: NodeType::Element(ElementData { tag_name: String::from_str(tag_name), attributes }),
        children,
    }
}

} // verus!

//! The document tree: elements with ordered attributes and children, and
//! text runs, together with the mathematical model that the contracts of
//! every other module speak of.

use vstd::prelude::*;

verus! {

broadcast use {vstd::seq::group_seq_axioms, vstd::std_specs::vec::group_vec_axioms};

/// One attribute of an element: a name and a value.
pub struct Attr {
    pub name: String,
    pub value: String,
}

/// A node of the document tree. A node is either an element, with a tag,
/// its attributes in stored order and its children in document order, or a
/// run of text.
pub enum Node {
    Element { tag: String, attributes: Vec<Attr>, children: Vec<Node> },
    Text { content: String },
}

/// The mathematical shape of a node: every string replaced by its sequence
/// of characters. Contracts are stated over this model.
pub enum NodeModel {
    Element { tag: Seq<char>, attributes: Seq<(Seq<char>, Seq<char>)>, children: Seq<NodeModel> },
    Text { content: Seq<char> },
}

/// The model of an attribute list.
pub open spec fn attrs_model(attrs: Seq<Attr>) -> Seq<(Seq<char>, Seq<char>)> {
    attrs.map_values(|a: Attr| (a.name@, a.value@))
}

/// The model of a node.
pub open spec fn model(n: Node) -> NodeModel
    decreases n,
{
    match n {
        Node::Text { content } => NodeModel::Text { content: content@ },
        Node::Element { tag, attributes, children } => NodeModel::Element {
            tag: tag@,
            attributes: attrs_model(attributes@),
            children: models(children@, children@.len() as int),
        },
    }
}

/// The models of the first `k` nodes of a sequence, in order.
pub open spec fn models(s: Seq<Node>, k: int) -> Seq<NodeModel>
    decreases s, k,
{
    if k <= 0 || k > s.len() {
        Seq::empty()
    } else {
        models(s, k - 1).push(model(s[k - 1]))
    }
}

/// The value of the first attribute named `name`, scanning from position `i`.
pub open spec fn attr_lookup_from(
    attrs: Seq<(Seq<char>, Seq<char>)>,
    name: Seq<char>,
    i: int,
) -> Option<Seq<char>>
    decreases attrs.len() - i,
{
    if i < 0 || i >= attrs.len() {
        None
    } else if attrs[i].0 == name {
        Some(attrs[i].1)
    } else {
        attr_lookup_from(attrs, name, i + 1)
    }
}

/// The value of the first attribute named `name`, if any.
pub open spec fn attr_lookup(attrs: Seq<(Seq<char>, Seq<char>)>, name: Seq<char>) -> Option<
    Seq<char>,
> {
    attr_lookup_from(attrs, name, 0)
}

/// Looks up the first attribute named `name`, as `attr_lookup` states.
pub fn attr_value<'a>(attrs: &'a Vec<Attr>, name: &str) -> (r: Option<&'a String>)
    ensures
        match r {
            Some(v) => attr_lookup(attrs_model(attrs@), name@) == Some(v@),
            None => attr_lookup(attrs_model(attrs@), name@) is None,
        },
{
    let ghost m = attrs_model(attrs@);
    let mut i: usize = 0;
    while i < attrs.len()
        invariant
            m == attrs_model(attrs@),
            m.len() == attrs@.len(),
            i <= attrs@.len(),
            attr_lookup(m, name@) == attr_lookup_from(m, name@, i as int),
        decreases attrs@.len() - i,
    {
        if crate::chars::str_eq(attrs[i].name.as_str(), name) {
            assert(m[i as int].0 == name@);
            return Some(&attrs[i].value);
        }
        assert(m[i as int].0 != name@);
        i += 1;
    }
    None
}

/// Whether a node is an element.
pub open spec fn is_element(n: Node) -> bool {
    n matches Node::Element { .. }
}

/// The number of children of a node; zero for text.
pub open spec fn num_children(n: Node) -> nat {
    match n {
        Node::Element { children, .. } => children@.len(),
        Node::Text { .. } => 0,
    }
}

/// The model of an element after its `i`-th child was detached.
pub open spec fn detached_model(m: NodeModel, i: int) -> NodeModel {
    match m {
        NodeModel::Element { tag, attributes, children } => NodeModel::Element {
            tag,
            attributes,
            children: children.remove(i),
        },
        NodeModel::Text { content } => NodeModel::Text { content },
    }
}

/// Detaches the `index`-th child of an element: the child and its whole
/// subtree leave the tree, and every later stage works on what remains.
pub fn detach_child(node: &mut Node, index: usize)
    requires
        is_element(*old(node)),
        index < num_children(*old(node)),
    ensures
        model(*final(node)) == detached_model(model(*old(node)), index as int),
{
    match node {
        Node::Element { children, .. } => {
            let ghost c0 = children@;
            let _ = children.remove(index);
            proof {
                let old_ms = models(c0, c0.len() as int);
                let new_ms = models(children@, children@.len() as int);
                assert forall|j: int| 0 <= j < children@.len() implies new_ms[j] == old_ms.remove(
                    index as int,
                )[j] by {
                    lemma_models_index(children@, children@.len() as int, j);
                    if j < index {
                        lemma_models_index(c0, c0.len() as int, j);
                    } else {
                        lemma_models_index(c0, c0.len() as int, j + 1);
                    }
                }
                lemma_models_len(children@, children@.len() as int);
                lemma_models_len(c0, c0.len() as int);
                assert(new_ms =~= old_ms.remove(index as int));
            }
        },
        Node::Text { .. } => {
            proof {
                assert(false);
            }
        },
    }
}

pub proof fn lemma_models_len(s: Seq<Node>, k: int)
    requires
        0 <= k <= s.len(),
    ensures
        models(s, k).len() == k,
    decreases k,
{
    if k > 0 {
        lemma_models_len(s, k - 1);
    }
}

pub proof fn lemma_models_index(s: Seq<Node>, k: int, i: int)
    requires
        0 <= i < k <= s.len(),
    ensures
        models(s, k).len() == k,
        models(s, k)[i] == model(s[i]),
    decreases k,
{
    lemma_models_len(s, k);
    if i < k - 1 {
        lemma_models_index(s, k - 1, i);
    }
}

} // verus!

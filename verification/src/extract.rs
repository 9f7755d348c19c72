//! Extraction of text content and of named attribute values from a subtree.

use vstd::prelude::*;
use vstd::string::StringExecFns;
use crate::chars::all_space;
use crate::chars::is_blank;
use crate::dom::Node;
use crate::dom::NodeModel;
use crate::dom::attr_lookup;
use crate::dom::attr_value;
use crate::dom::lemma_models_index;
use crate::dom::model;
use crate::dom::models;

verus! {

broadcast use {vstd::seq::group_seq_axioms, vstd::std_specs::vec::group_vec_axioms};

/// The text of a subtree, in document order. With `skip_ws`, a text node
/// that is all whitespace contributes nothing and every kept text node is
/// followed by a newline; without it, the raw contents are concatenated.
pub open spec fn text_of(n: NodeModel, skip_ws: bool) -> Seq<char>
    decreases n,
{
    match n {
        NodeModel::Text { content } => if skip_ws {
            if all_space(content) {
                Seq::empty()
            } else {
                content + "\n"@
            }
        } else {
            content
        },
        NodeModel::Element { children, .. } => text_from(children, 0, skip_ws),
    }
}

/// The concatenated text of the nodes of `s` from position `i` on.
pub open spec fn text_from(s: Seq<NodeModel>, i: int, skip_ws: bool) -> Seq<char>
    decreases s, s.len() - i,
{
    if i < 0 || i >= s.len() {
        Seq::empty()
    } else {
        text_of(s[i], skip_ws) + text_from(s, i + 1, skip_ws)
    }
}

#[verifier::loop_isolation(false)]
fn text_into(n: &Node, skip_ws: bool, out: &mut String)
    ensures
        final (out)@ == old(out)@ + text_of(model(*n), skip_ws),
    decreases *n,
{
    match n {
        Node::Text { content } => {
            if skip_ws {
                if !is_blank(content.as_str()) {
                    out.append(content.as_str());
                    out.append("\n");
                }
            } else {
                out.append(content.as_str());
            }
            proof {
                assert(old(out)@ + Seq::<char>::empty() =~= old(out)@);
                assert(old(out)@ + content@ + "\n"@ =~= old(out)@ + (content@ + "\n"@));
            }
        },
        Node::Element { children, .. } => {
            let ghost cm = models(children@, children@.len() as int);
            let ghost out0 = out@;
            proof {
                crate::dom::lemma_models_len(children@, children@.len() as int);
            }
            let mut i: usize = 0;
            while i < children.len()
                invariant
                    cm == models(children@, children@.len() as int),
                    cm.len() == children@.len(),
                    i <= children@.len(),
                    out@ + text_from(cm, i as int, skip_ws) == out0 + text_from(cm, 0, skip_ws),
                decreases children@.len() - i,
            {
                let ghost pre = out@;
                proof {
                    assert(decreases_to!(*n => (*n)->Element_children));
                    assert((*n)->Element_children == *children);
                    assert(decreases_to!(*children => children@[i as int]));
                    assert(decreases_to!(*n => children@[i as int]));
                }
                text_into(&children[i], skip_ws, out);
                proof {
                    lemma_models_index(children@, children@.len() as int, i as int);
                    assert(text_from(cm, i as int, skip_ws) == text_of(cm[i as int], skip_ws)
                        + text_from(cm, i as int + 1, skip_ws));
                    assert(out@ + text_from(cm, i as int + 1, skip_ws) =~= pre + text_from(
                        cm,
                        i as int,
                        skip_ws,
                    ));
                }
                i += 1;
            }
            proof {
                assert(out@ + text_from(cm, children@.len() as int, skip_ws) =~= out@);
            }
        },
    }
}

/// The text content of a subtree, as `text_of` states: raw concatenation of
/// the text nodes in document order, or, when whitespace is ignored, the
/// non-blank text nodes each followed by a newline.
pub fn serialize_text(node: &Node, ignore_whitespace: bool) -> (r: String)
    ensures
        r@ == text_of(model(*node), ignore_whitespace),
{
    let mut out = String::new();
    text_into(node, ignore_whitespace, &mut out);
    proof {
        assert(Seq::<char>::empty() + text_of(model(*node), ignore_whitespace) =~= text_of(
            model(*node),
            ignore_whitespace,
        ));
    }
    out
}

/// The attribute values that `names` selects from a node, from position `i`
/// on: for each requested name in the given order, the node's value for it
/// followed by a newline, or nothing where the attribute is absent. A text
/// node yields nothing.
pub open spec fn selected_from(n: NodeModel, names: Seq<Seq<char>>, i: int) -> Seq<char>
    decreases names.len() - i,
{
    if i < 0 || i >= names.len() {
        Seq::empty()
    } else {
        (match n {
            NodeModel::Element { attributes, .. } => match attr_lookup(attributes, names[i]) {
                Some(v) => v + "\n"@,
                None => Seq::empty(),
            },
            NodeModel::Text { .. } => Seq::empty(),
        }) + selected_from(n, names, i + 1)
    }
}

/// The lines that attribute selection emits for a node.
pub open spec fn selected_attrs(n: NodeModel, names: Seq<Seq<char>>) -> Seq<char> {
    selected_from(n, names, 0)
}

/// The values of the requested attributes, one line each, in the order the
/// names are given, as `selected_attrs` states.
#[verifier::loop_isolation(false)]
pub fn select_attributes(node: &Node, attributes: &Vec<String>) -> (r: String)
    ensures
        r@ == selected_attrs(model(*node), attributes.deep_view()),
{
    let ghost names = attributes.deep_view();
    let ghost m = model(*node);
    let mut out = String::new();
    proof {
        assert(out@ + selected_from(m, names, 0) =~= selected_from(m, names, 0));
    }
    let mut i: usize = 0;
    while i < attributes.len()
        invariant
            names == attributes.deep_view(),
            names.len() == attributes@.len(),
            m == model(*node),
            i <= attributes@.len(),
            out@ + selected_from(m, names, i as int) == selected_from(m, names, 0),
        decreases attributes@.len() - i,
    {
        let ghost pre = out@;
        assert(names[i as int] == attributes@[i as int]@);
        match node {
            Node::Element { attributes: elem_attrs, .. } => {
                match attr_value(elem_attrs, attributes[i].as_str()) {
                    Some(v) => {
                        out.append(v.as_str());
                        out.append("\n");
                        proof {
                            assert(out@ =~= pre + (v@ + "\n"@));
                        }
                    },
                    None => {},
                }
            },
            Node::Text { .. } => {},
        }
        proof {
            assert(selected_from(m, names, i as int) == (match m {
                NodeModel::Element { attributes: am, .. } => match attr_lookup(
                    am,
                    names[i as int],
                ) {
                    Some(v) => v + "\n"@,
                    None => Seq::<char>::empty(),
                },
                NodeModel::Text { .. } => Seq::<char>::empty(),
            }) + selected_from(m, names, i as int + 1));
            assert(out@ + selected_from(m, names, i as int + 1) =~= pre + selected_from(
                m,
                names,
                i as int,
            ));
        }
        i += 1;
    }
    proof {
        assert(out@ + selected_from(m, names, attributes@.len() as int) =~= out@);
    }
    out
}

proof fn lemma_text_shift(s: Seq<NodeModel>, t: int, w: bool)
    requires
        0 <= t <= s.len(),
    ensures
        text_from(s, t, w) == text_from(s.skip(t), 0, w),
    decreases s.len() - t,
{
    if t < s.len() {
        lemma_text_shift(s, t + 1, w);
        lemma_text_shift(s.skip(t), 1, w);
        assert(s.skip(t).skip(1) =~= s.skip(t + 1));
        assert(s.skip(t)[0] == s[t]);
    }
}

/// Concatenation: the text of a sequence of nodes splits at any seam.
pub proof fn lemma_text_concat(s1: Seq<NodeModel>, s2: Seq<NodeModel>, w: bool)
    ensures
        text_from(s1 + s2, 0, w) == text_from(s1, 0, w) + text_from(s2, 0, w),
    decreases s1.len(),
{
    if s1.len() == 0 {
        assert(s1 + s2 =~= s2);
        assert(Seq::<char>::empty() + text_from(s2, 0, w) =~= text_from(s2, 0, w));
    } else {
        let rest = s1.drop_first();
        lemma_text_concat(rest, s2, w);
        lemma_text_shift(s1 + s2, 1, w);
        assert((s1 + s2).skip(1) =~= rest + s2);
        lemma_text_shift(s1, 1, w);
        assert(s1.skip(1) =~= rest);
        assert((s1 + s2)[0] == s1[0]);
        assert(text_of(s1[0], w) + (text_from(rest, 0, w) + text_from(s2, 0, w)) =~= (text_of(
            s1[0],
            w,
        ) + text_from(rest, 0, w)) + text_from(s2, 0, w));
    }
}

/// Removal, for the text stage: the text of an element after its `i`-th
/// child was detached is the text of the children before and after it
/// alone; the detached subtree's contribution is gone and nothing else
/// changes.
pub proof fn lemma_detach_text(s: Seq<NodeModel>, i: int, w: bool)
    requires
        0 <= i < s.len(),
    ensures
        text_from(s, 0, w) == text_from(s.take(i), 0, w) + text_of(s[i], w) + text_from(
            s.skip(i + 1),
            0,
            w,
        ),
        text_from(s.remove(i), 0, w) == text_from(s.take(i), 0, w) + text_from(
            s.skip(i + 1),
            0,
            w,
        ),
{
    let single = seq![s[i]];
    assert(s =~= s.take(i) + (single + s.skip(i + 1)));
    lemma_text_concat(s.take(i), single + s.skip(i + 1), w);
    lemma_text_concat(single, s.skip(i + 1), w);
    assert(text_from(single, 0, w) == text_of(s[i], w) + text_from(single, 1, w));
    assert(text_of(s[i], w) + Seq::<char>::empty() =~= text_of(s[i], w));
    assert(s.remove(i) =~= s.take(i) + s.skip(i + 1));
    lemma_text_concat(s.take(i), s.skip(i + 1), w);
    assert(text_from(s.take(i), 0, w) + (text_of(s[i], w) + text_from(s.skip(i + 1), 0, w)) =~=
    text_from(s.take(i), 0, w) + text_of(s[i], w) + text_from(s.skip(i + 1), 0, w));
}

/// Removal, for the attribute stage: detaching a child changes nothing of
/// the node's own attributes, so attribute extraction is unchanged.
pub proof fn lemma_detach_attrs(m: NodeModel, i: int, names: Seq<Seq<char>>)
    ensures
        selected_attrs(crate::dom::detached_model(m, i), names) == selected_attrs(m, names),
{
    lemma_detach_attrs_from(m, i, names, 0);
}

proof fn lemma_detach_attrs_from(m: NodeModel, i: int, names: Seq<Seq<char>>, j: int)
    ensures
        selected_from(crate::dom::detached_model(m, i), names, j) == selected_from(m, names, j),
    decreases names.len() - j,
{
    if 0 <= j < names.len() {
        lemma_detach_attrs_from(m, i, names, j + 1);
    }
}

} // verus!

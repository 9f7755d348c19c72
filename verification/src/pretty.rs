//! The pretty-printing serializer: a deterministic, side-effect-free
//! rendering of a subtree as indented markup, one contribution per line.

use vstd::prelude::*;
use vstd::string::StringExecFns;
use crate::chars::all_space;
use crate::chars::is_blank;
use crate::chars::trim_str;
use crate::chars::trimmed;
use crate::dom::Node;
use crate::dom::NodeModel;
use crate::dom::attrs_model;
use crate::dom::lemma_models_index;
use crate::dom::lemma_models_len;
use crate::dom::model;
use crate::dom::models;

verus! {

broadcast use {vstd::seq::group_seq_axioms, vstd::std_specs::vec::group_vec_axioms};

/// A void element: rendered as a single self-contained opening tag, never
/// descended into, and given no closing tag.
pub open spec fn is_void_tag(tag: Seq<char>) -> bool {
    ||| tag == "area"@
    ||| tag == "base"@
    ||| tag == "br"@
    ||| tag == "col"@
    ||| tag == "embed"@
    ||| tag == "hr"@
    ||| tag == "img"@
    ||| tag == "input"@
    ||| tag == "link"@
    ||| tag == "meta"@
    ||| tag == "param"@
    ||| tag == "source"@
    ||| tag == "track"@
    ||| tag == "wbr"@
}

/// The attribute part of an opening tag from position `i` on: for each
/// attribute, in stored order, a space, its name, and its value in quotes,
/// emitted verbatim.
pub open spec fn attrs_markup(attrs: Seq<(Seq<char>, Seq<char>)>, i: int) -> Seq<char>
    decreases attrs.len() - i,
{
    if i < 0 || i >= attrs.len() {
        Seq::empty()
    } else {
        " "@ + attrs[i].0 + "=\""@ + attrs[i].1 + "\""@ + attrs_markup(attrs, i + 1)
    }
}

/// An opening tag with its attributes in stored order.
pub open spec fn open_tag_markup(tag: Seq<char>, attrs: Seq<(Seq<char>, Seq<char>)>) -> Seq<char> {
    "<"@ + tag + attrs_markup(attrs, 0) + ">"@
}

/// A closing tag.
pub open spec fn close_tag_markup(tag: Seq<char>) -> Seq<char> {
    "</"@ + tag + ">"@
}

/// The pretty rendering of a subtree at indent `ind`. Whitespace-only text
/// contributes nothing; other text contributes its trimmed content as one
/// line; a void element contributes its opening tag as one line; any other
/// element contributes its opening tag, its children indented two spaces
/// deeper, and its closing tag at the element's own indent.
pub open spec fn pretty_of(n: NodeModel, ind: Seq<char>) -> Seq<char>
    decreases n,
{
    match n {
        NodeModel::Text { content } => if all_space(content) {
            Seq::empty()
        } else {
            ind + trimmed(content) + "\n"@
        },
        NodeModel::Element { tag, attributes, children } => {
            if is_void_tag(tag) {
                ind + open_tag_markup(tag, attributes) + "\n"@
            } else {
                ind + open_tag_markup(tag, attributes) + "\n"@ + pretty_from(
                    children,
                    0,
                    ind + "  "@,
                ) + ind + close_tag_markup(tag) + "\n"@
            }
        },
    }
}

/// The renderings of the nodes of `s` from position `i` on, one after the
/// other at indent `ind`.
pub open spec fn pretty_from(s: Seq<NodeModel>, i: int, ind: Seq<char>) -> Seq<char>
    decreases s, s.len() - i,
{
    if i < 0 || i >= s.len() {
        Seq::empty()
    } else {
        pretty_of(s[i], ind) + pretty_from(s, i + 1, ind)
    }
}

/// Whether a tag names a void element.
fn is_void(tag: &str) -> (r: bool)
    ensures
        r == is_void_tag(tag@),
{
    crate::chars::str_eq(tag, "area") || crate::chars::str_eq(tag, "base")
        || crate::chars::str_eq(tag, "br") || crate::chars::str_eq(tag, "col")
        || crate::chars::str_eq(tag, "embed") || crate::chars::str_eq(tag, "hr")
        || crate::chars::str_eq(tag, "img") || crate::chars::str_eq(tag, "input")
        || crate::chars::str_eq(tag, "link") || crate::chars::str_eq(tag, "meta")
        || crate::chars::str_eq(tag, "param") || crate::chars::str_eq(tag, "source")
        || crate::chars::str_eq(tag, "track") || crate::chars::str_eq(tag, "wbr")
}

#[verifier::loop_isolation(false)]
fn pretty_into(n: &Node, ind: &String, out: &mut String)
    ensures
        final (out)@ == old(out)@ + pretty_of(model(*n), ind@),
    decreases *n,
{
    match n {
        Node::Text { content } => {
            if !is_blank(content.as_str()) {
                out.append(ind.as_str());
                out.append(trim_str(content.as_str()));
                out.append("\n");
                proof {
                    assert(out@ =~= old(out)@ + (ind@ + trimmed(content@) + "\n"@));
                }
            } else {
                proof {
                    assert(out@ =~= old(out)@ + Seq::<char>::empty());
                }
            }
        },
        Node::Element { tag, attributes, children } => {
            let ghost am = attrs_model(attributes@);
            out.append(ind.as_str());
            out.append("<");
            out.append(tag.as_str());
            let ghost head = out@;
            let mut i: usize = 0;
            while i < attributes.len()
                invariant
                    i <= attributes@.len(),
                    out@ + attrs_markup(am, i as int) == head + attrs_markup(am, 0),
                decreases attributes@.len() - i,
            {
                let ghost pre = out@;
                let a = &attributes[i];
                out.append(" ");
                out.append(a.name.as_str());
                out.append("=\"");
                out.append(a.value.as_str());
                out.append("\"");
                proof {
                    assert(am[i as int] == (a.name@, a.value@));
                    assert(out@ + attrs_markup(am, i as int + 1) =~= pre + attrs_markup(
                        am,
                        i as int,
                    ));
                }
                i += 1;
            }
            proof {
                assert(out@ + attrs_markup(am, attributes@.len() as int) =~= out@);
            }
            out.append(">");
            out.append("\n");
            proof {
                assert(out@ =~= old(out)@ + (ind@ + open_tag_markup(tag@, am) + "\n"@));
            }
            if is_void(tag.as_str()) {
                return ;
            }
            let mut child_ind = ind.clone();
            child_ind.append("  ");
            let ghost cm = models(children@, children@.len() as int);
            proof {
                lemma_models_len(children@, children@.len() as int);
            }
            let ghost mid = out@;
            let mut i: usize = 0;
            while i < children.len()
                invariant
                    i <= children@.len(),
                    child_ind@ == ind@ + "  "@,
                    out@ + pretty_from(cm, i as int, child_ind@) == mid + pretty_from(
                        cm,
                        0,
                        child_ind@,
                    ),
                decreases children@.len() - i,
            {
                let ghost pre = out@;
                proof {
                    assert(decreases_to!(*n => (*n)->Element_children));
                    assert((*n)->Element_children == *children);
                    assert(decreases_to!(*children => children@[i as int]));
                    assert(decreases_to!(*n => children@[i as int]));
                }
                pretty_into(&children[i], &child_ind, out);
                proof {
                    lemma_models_index(children@, children@.len() as int, i as int);
                    assert(out@ + pretty_from(cm, i as int + 1, child_ind@) =~= pre + pretty_from(
                        cm,
                        i as int,
                        child_ind@,
                    ));
                }
                i += 1;
            }
            proof {
                assert(out@ + pretty_from(cm, children@.len() as int, child_ind@) =~= out@);
            }
            out.append(ind.as_str());
            out.append("</");
            out.append(tag.as_str());
            out.append(">");
            out.append("\n");
            proof {
                assert(out@ =~= old(out)@ + (ind@ + open_tag_markup(tag@, am) + "\n"@
                    + pretty_from(cm, 0, ind@ + "  "@) + ind@ + close_tag_markup(tag@) + "\n"@));
            }
        },
    }
}

proof fn lemma_pretty_shift(s: Seq<NodeModel>, t: int, ind: Seq<char>)
    requires
        0 <= t <= s.len(),
    ensures
        pretty_from(s, t, ind) == pretty_from(s.skip(t), 0, ind),
    decreases s.len() - t,
{
    if t < s.len() {
        lemma_pretty_shift(s, t + 1, ind);
        lemma_pretty_shift(s.skip(t), 1, ind);
        assert(s.skip(t).skip(1) =~= s.skip(t + 1));
        assert(s.skip(t)[0] == s[t]);
    }
}

/// Concatenation: the rendering of a sequence of nodes splits at any seam.
pub proof fn lemma_pretty_concat(s1: Seq<NodeModel>, s2: Seq<NodeModel>, ind: Seq<char>)
    ensures
        pretty_from(s1 + s2, 0, ind) == pretty_from(s1, 0, ind) + pretty_from(s2, 0, ind),
    decreases s1.len(),
{
    if s1.len() == 0 {
        assert(s1 + s2 =~= s2);
        assert(Seq::<char>::empty() + pretty_from(s2, 0, ind) =~= pretty_from(s2, 0, ind));
    } else {
        let rest = s1.drop_first();
        lemma_pretty_concat(rest, s2, ind);
        lemma_pretty_shift(s1 + s2, 1, ind);
        assert((s1 + s2).skip(1) =~= rest + s2);
        lemma_pretty_shift(s1, 1, ind);
        assert(s1.skip(1) =~= rest);
        assert((s1 + s2)[0] == s1[0]);
        assert(pretty_of(s1[0], ind) + (pretty_from(rest, 0, ind) + pretty_from(s2, 0, ind)) =~= (
        pretty_of(s1[0], ind) + pretty_from(rest, 0, ind)) + pretty_from(s2, 0, ind));
    }
}

/// Removal, for the pretty stage: after the `i`-th child was detached, the
/// rendering is that of the children before and after it alone; the
/// detached subtree's lines are gone and nothing else changes.
pub proof fn lemma_detach_pretty(s: Seq<NodeModel>, i: int, ind: Seq<char>)
    requires
        0 <= i < s.len(),
    ensures
        pretty_from(s, 0, ind) == pretty_from(s.take(i), 0, ind) + pretty_of(s[i], ind)
            + pretty_from(s.skip(i + 1), 0, ind),
        pretty_from(s.remove(i), 0, ind) == pretty_from(s.take(i), 0, ind) + pretty_from(
            s.skip(i + 1),
            0,
            ind,
        ),
{
    let single = seq![s[i]];
    assert(s =~= s.take(i) + (single + s.skip(i + 1)));
    lemma_pretty_concat(s.take(i), single + s.skip(i + 1), ind);
    lemma_pretty_concat(single, s.skip(i + 1), ind);
    assert(pretty_from(single, 0, ind) == pretty_of(s[i], ind) + pretty_from(single, 1, ind));
    assert(pretty_of(s[i], ind) + Seq::<char>::empty() =~= pretty_of(s[i], ind));
    assert(s.remove(i) =~= s.take(i) + s.skip(i + 1));
    lemma_pretty_concat(s.take(i), s.skip(i + 1), ind);
    assert(pretty_from(s.take(i), 0, ind) + (pretty_of(s[i], ind) + pretty_from(
        s.skip(i + 1),
        0,
        ind,
    )) =~= pretty_from(s.take(i), 0, ind) + pretty_of(s[i], ind) + pretty_from(
        s.skip(i + 1),
        0,
        ind,
    ));
}

/// Insignificant whitespace: a whitespace-only text node inserted anywhere
/// among an element's children leaves the rendering unchanged. This is why
/// re-rendering the parse of a rendering is stable: the whitespace that the
/// indentation introduces contributes nothing.
pub proof fn lemma_whitespace_insignificant(
    s: Seq<NodeModel>,
    i: int,
    ws: Seq<char>,
    ind: Seq<char>,
)
    requires
        0 <= i <= s.len(),
        all_space(ws),
    ensures
        pretty_from(s.insert(i, NodeModel::Text { content: ws }), 0, ind) == pretty_from(
            s,
            0,
            ind,
        ),
{
    let blank = NodeModel::Text { content: ws };
    let single = seq![blank];
    assert(s.insert(i, blank) =~= s.take(i) + (single + s.skip(i)));
    lemma_pretty_concat(s.take(i), single + s.skip(i), ind);
    lemma_pretty_concat(single, s.skip(i), ind);
    assert(pretty_from(single, 0, ind) == pretty_of(blank, ind) + pretty_from(single, 1, ind));
    assert(pretty_of(blank, ind) == Seq::<char>::empty());
    assert(Seq::<char>::empty() + pretty_from(s.skip(i), 0, ind) =~= pretty_from(s.skip(i), 0, ind));
    assert(pretty_from(single, 0, ind) + Seq::<char>::empty() =~= pretty_from(single, 0, ind));
    assert(s =~= s.take(i) + s.skip(i));
    lemma_pretty_concat(s.take(i), s.skip(i), ind);
}

/// Renders a subtree as indented, readable markup, as `pretty_of` states,
/// starting with no indent. The rendering is a pure function of the tree.
pub fn pretty_print(node: &Node) -> (r: String)
    ensures
        r@ == pretty_of(model(*node), Seq::empty()),
{
    let mut out = String::new();
    let ind = String::new();
    pretty_into(node, &ind, &mut out);
    proof {
        assert(Seq::<char>::empty() + pretty_of(model(*node), Seq::<char>::empty()) =~= pretty_of(
            model(*node),
            Seq::<char>::empty(),
        ));
    }
    out
}

} // verus!

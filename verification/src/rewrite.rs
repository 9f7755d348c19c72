//! Link rewriting: root-relative references in link-bearing attributes are
//! resolved against the base URL, in place, through the whole subtree.

use vstd::prelude::*;
use vstd::string::StrSliceExecFns;
use vstd::string::StringExecFns;
use crate::base::BaseUrl;
use crate::chars::str_eq;
use crate::dom::Attr;
use crate::dom::Node;
use crate::dom::NodeModel;
use crate::dom::attrs_model;
use crate::dom::lemma_models_index;
use crate::dom::lemma_models_len;
use crate::dom::model;
use crate::dom::models;

verus! {

broadcast use {vstd::seq::group_seq_axioms, vstd::std_specs::vec::group_vec_axioms};

/// A root-relative reference: it starts with a single `/`, so it has
/// neither scheme nor authority.
pub open spec fn is_root_relative(v: Seq<char>) -> bool {
    v.len() >= 1 && v[0] == '/' && !(v.len() >= 2 && v[1] == '/')
}

/// A link-bearing attribute name.
pub open spec fn is_link_attr(name: Seq<char>) -> bool {
    name == "href"@ || name == "src"@
}

/// What rewriting does to one attribute value: a root-relative reference
/// gets `scheme://authority` prepended, character for character; everything
/// else — protocol-relative, scheme-carrying and document-relative values —
/// stays as it is.
pub open spec fn rewritten_value(v: Seq<char>, scheme: Seq<char>, authority: Seq<char>) -> Seq<
    char,
> {
    if is_root_relative(v) {
        scheme + "://"@ + authority + v
    } else {
        v
    }
}

/// What rewriting does to an attribute list: the values of link-bearing
/// attributes are rewritten, names and order stay.
pub open spec fn rewritten_attrs(
    attrs: Seq<(Seq<char>, Seq<char>)>,
    scheme: Seq<char>,
    authority: Seq<char>,
) -> Seq<(Seq<char>, Seq<char>)> {
    attrs.map_values(
        |p: (Seq<char>, Seq<char>)|
            if is_link_attr(p.0) {
                (p.0, rewritten_value(p.1, scheme, authority))
            } else {
                p
            },
    )
}

/// What rewriting does to a subtree: every element's link-bearing
/// attributes are rewritten; tags, text and the shape of the tree stay.
pub open spec fn rewritten_model(n: NodeModel, scheme: Seq<char>, authority: Seq<char>) -> NodeModel
    decreases n,
{
    match n {
        NodeModel::Text { content } => NodeModel::Text { content },
        NodeModel::Element { tag, attributes, children } => NodeModel::Element {
            tag,
            attributes: rewritten_attrs(attributes, scheme, authority),
            children: rewritten_children(children, children.len() as int, scheme, authority),
        },
    }
}

/// The rewrites of the first `k` nodes of a sequence, in order.
pub open spec fn rewritten_children(
    s: Seq<NodeModel>,
    k: int,
    scheme: Seq<char>,
    authority: Seq<char>,
) -> Seq<NodeModel>
    decreases s, k,
{
    if k <= 0 || k > s.len() {
        Seq::empty()
    } else {
        rewritten_children(s, k - 1, scheme, authority).push(
            rewritten_model(s[k - 1], scheme, authority),
        )
    }
}

pub proof fn lemma_rewritten_children_index(
    s: Seq<NodeModel>,
    k: int,
    scheme: Seq<char>,
    authority: Seq<char>,
    i: int,
)
    requires
        0 <= i < k <= s.len(),
    ensures
        rewritten_children(s, k, scheme, authority).len() == k,
        rewritten_children(s, k, scheme, authority)[i] == rewritten_model(s[i], scheme, authority),
    decreases k,
{
    lemma_rewritten_children_len(s, k, scheme, authority);
    if i < k - 1 {
        lemma_rewritten_children_index(s, k - 1, scheme, authority, i);
    }
}

pub proof fn lemma_rewritten_children_len(
    s: Seq<NodeModel>,
    k: int,
    scheme: Seq<char>,
    authority: Seq<char>,
)
    requires
        0 <= k <= s.len(),
    ensures
        rewritten_children(s, k, scheme, authority).len() == k,
    decreases k,
{
    if k > 0 {
        lemma_rewritten_children_len(s, k - 1, scheme, authority);
    }
}

/// Whether a string is a root-relative reference.
fn is_root_relative_str(v: &str) -> (r: bool)
    ensures
        r == is_root_relative(v@),
{
    let n = v.unicode_len();
    n >= 1 && v.get_char(0) == '/' && !(n >= 2 && v.get_char(1) == '/')
}

/// The rewritten copy of one attribute value.
fn rewritten_value_str(v: &String, base: &BaseUrl) -> (r: String)
    ensures
        r@ == rewritten_value(v@, base.scheme@, base.authority@),
{
    if is_root_relative_str(v.as_str()) {
        let mut out = base.scheme.clone();
        out.append("://");
        out.append(base.authority.as_str());
        out.append(v.as_str());
        proof {
            assert(out@ =~= base.scheme@ + "://"@ + base.authority@ + v@);
        }
        out
    } else {
        v.clone()
    }
}

/// The rewritten copy of a subtree.
#[verifier::loop_isolation(false)]
fn rewritten_node(n: &Node, base: &BaseUrl) -> (r: Node)
    ensures
        model(r) == rewritten_model(model(*n), base.scheme@, base.authority@),
    decreases *n,
{
    let ghost scheme = base.scheme@;
    let ghost authority = base.authority@;
    match n {
        Node::Text { content } => Node::Text { content: content.clone() },
        Node::Element { tag, attributes, children } => {
            let ghost am = attrs_model(attributes@);
            let mut new_attrs: Vec<Attr> = Vec::new();
            let mut i: usize = 0;
            while i < attributes.len()
                invariant
                    i <= attributes@.len(),
                    new_attrs@.len() == i,
                    forall|j: int|
                        0 <= j < i ==> #[trigger] attrs_model(new_attrs@)[j] == rewritten_attrs(
                            am,
                            scheme,
                            authority,
                        )[j],
                decreases attributes@.len() - i,
            {
                let a = &attributes[i];
                let ghost pre = new_attrs@;
                let link = str_eq(a.name.as_str(), "href") || str_eq(a.name.as_str(), "src");
                if link {
                    new_attrs.push(
                        Attr { name: a.name.clone(), value: rewritten_value_str(&a.value, base) },
                    );
                } else {
                    new_attrs.push(Attr { name: a.name.clone(), value: a.value.clone() });
                }
                proof {
                    assert(am[i as int] == (a.name@, a.value@));
                    assert(attrs_model(new_attrs@)[i as int] == (
                        new_attrs@[i as int].name@,
                        new_attrs@[i as int].value@,
                    ));
                    assert(attrs_model(new_attrs@)[i as int] == rewritten_attrs(
                        am,
                        scheme,
                        authority,
                    )[i as int]);
                    assert(forall|j: int|
                        0 <= j < i ==> #[trigger] attrs_model(new_attrs@)[j] == attrs_model(pre)[j]);
                }
                i += 1;
            }
            let ghost cm = models(children@, children@.len() as int);
            proof {
                lemma_models_len(children@, children@.len() as int);
            }
            let mut new_children: Vec<Node> = Vec::new();
            let mut i: usize = 0;
            while i < children.len()
                invariant
                    i <= children@.len(),
                    new_children@.len() == i,
                    forall|j: int|
                        0 <= j < i ==> model(#[trigger] new_children@[j]) == rewritten_model(
                            cm[j],
                            scheme,
                            authority,
                        ),
                decreases children@.len() - i,
            {
                proof {
                    assert(decreases_to!(*n => (*n)->Element_children));
                    assert((*n)->Element_children == *children);
                    assert(decreases_to!(*children => children@[i as int]));
                    assert(decreases_to!(*n => children@[i as int]));
                }
                let c = rewritten_node(&children[i], base);
                proof {
                    lemma_models_index(children@, children@.len() as int, i as int);
                }
                new_children.push(c);
                i += 1;
            }
            let r = Node::Element { tag: tag.clone(), attributes: new_attrs, children: new_children };
            proof {
                assert(attrs_model(new_attrs@) =~= rewritten_attrs(am, scheme, authority));
                let rm = models(new_children@, new_children@.len() as int);
                assert forall|j: int| 0 <= j < new_children@.len() implies rm[j]
                    == rewritten_children(cm, cm.len() as int, scheme, authority)[j] by {
                    lemma_models_index(new_children@, new_children@.len() as int, j);
                    lemma_rewritten_children_index(cm, cm.len() as int, scheme, authority, j);
                }
                lemma_models_len(new_children@, new_children@.len() as int);
                lemma_rewritten_children_len(cm, cm.len() as int, scheme, authority);
                assert(rm =~= rewritten_children(cm, cm.len() as int, scheme, authority));
            }
            r
        },
    }
}

/// Rewrites, in place, every root-relative link in the subtree against the
/// base, as `rewritten_model` states; a text node is left unchanged.
pub fn rewrite_relative_url(node: &mut Node, base: &BaseUrl)
    ensures
        model(*final (node)) == rewritten_model(
            model(*old(node)),
            base.scheme@,
            base.authority@,
        ),
{
    let r = rewritten_node(&*node, base);
    *node = r;
}

/// Rewriting one value is idempotent: a value the rewrite has made absolute
/// starts with the scheme, not with `/`, so a second rewrite is a no-op.
pub proof fn lemma_rewrite_idempotent(v: Seq<char>, scheme: Seq<char>, authority: Seq<char>)
    requires
        scheme.len() > 0,
        scheme[0] != '/',
    ensures
        rewritten_value(rewritten_value(v, scheme, authority), scheme, authority)
            == rewritten_value(v, scheme, authority),
{
    if is_root_relative(v) {
        assert((scheme + "://"@ + authority + v)[0] == scheme[0]);
    }
}

} // verus!

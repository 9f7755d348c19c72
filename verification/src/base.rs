//! Base-URL resolution: parsing absolute URLs through the `url` crate and
//! finding the effective base of a document.

use vstd::prelude::*;
use crate::chars::str_eq;
use crate::dom::Node;
use crate::dom::NodeModel;
use crate::dom::attr_lookup;
use crate::dom::attr_value;
use crate::dom::lemma_models_index;
use crate::dom::lemma_models_len;
use crate::dom::model;
use crate::dom::models;

verus! {

broadcast use {vstd::seq::group_seq_axioms, vstd::std_specs::vec::group_vec_axioms};

/// A resolved absolute base URL: what link rewriting reads of it, as plain
/// strings. Produced once per run and immutable thereafter.
pub struct BaseUrl {
    pub scheme: String,
    pub authority: String,
}

/// What `url::Url::parse` yields on a string: `None` when the string does
/// not parse as an absolute URL, else the scheme and the authority of the
/// parsed URL. The result depends on the string alone.
pub uninterp spec fn parsed_url_of(s: Seq<char>) -> Option<(Seq<char>, Seq<char>)>;

/// Relies on `url::Url::parse`: it accepts exactly the absolute URL strings,
/// deterministically in its argument, and on success `Url::scheme` returns
/// the lower-cased scheme, which URL syntax starts with an ASCII letter, and
/// `Url::authority` the authority.
#[verifier::external_body]
fn parse_absolute_url(s: &str) -> (r: Option<BaseUrl>)
    ensures
        match r {
            Some(b) => parsed_url_of(s@) == Some((b.scheme@, b.authority@)) && b.scheme@.len() > 0
                && 'a' <= b.scheme@[0] && b.scheme@[0] <= 'z',
            None => parsed_url_of(s@) is None,
        },
{
    match url::Url::parse(s) {
        Ok(u) => Some(
            BaseUrl { scheme: u.scheme().to_string(), authority: u.authority().to_string() },
        ),
        Err(_) => None,
    }
}

/// What base detection yields on an attribute list: the parse of the `href`
/// value, if one is there.
pub open spec fn base_href_parse(attrs: Seq<(Seq<char>, Seq<char>)>) -> Option<
    (Seq<char>, Seq<char>),
> {
    match attr_lookup(attrs, "href"@) {
        Some(v) => parsed_url_of(v),
        None => None,
    }
}

/// The base that detection finds in a subtree: the first element in document
/// order whose tag is `base` and whose `href` parses as an absolute URL. A
/// `base` element whose `href` is missing or unparseable does not stop the
/// scan.
pub open spec fn detected_base(n: NodeModel) -> Option<(Seq<char>, Seq<char>)>
    decreases n,
{
    match n {
        NodeModel::Text { .. } => None,
        NodeModel::Element { tag, attributes, children } => {
            if tag == "base"@ && base_href_parse(attributes) is Some {
                base_href_parse(attributes)
            } else {
                detected_from(children, 0)
            }
        },
    }
}

/// The first detected base among the nodes of `s` from position `i` on.
pub open spec fn detected_from(s: Seq<NodeModel>, i: int) -> Option<(Seq<char>, Seq<char>)>
    decreases s, s.len() - i,
{
    if i < 0 || i >= s.len() {
        None
    } else {
        match detected_base(s[i]) {
            Some(u) => Some(u),
            None => detected_from(s, i + 1),
        }
    }
}

/// Scans the document for a `<base href="...">` element, as `detected_base`
/// states: the first one in document order whose `href` parses wins.
#[verifier::loop_isolation(false)]
pub fn detect_base(node: &Node) -> (r: Option<BaseUrl>)
    ensures
        match r {
            Some(b) => detected_base(model(*node)) == Some((b.scheme@, b.authority@)),
            None => detected_base(model(*node)) is None,
        },
    decreases *node,
{
    match node {
        Node::Text { .. } => None,
        Node::Element { tag, attributes, children } => {
            if str_eq(tag.as_str(), "base") {
                if let Some(v) = attr_value(attributes, "href") {
                    if let Some(b) = parse_absolute_url(v.as_str()) {
                        return Some(b);
                    }
                }
            }
            let ghost cm = models(children@, children@.len() as int);
            proof {
                lemma_models_len(children@, children@.len() as int);
            }
            let mut i: usize = 0;
            while i < children.len()
                invariant
                    i <= children@.len(),
                    detected_from(cm, 0) == detected_from(cm, i as int),
                decreases children@.len() - i,
            {
                proof {
                    assert(decreases_to!(*node => (*node)->Element_children));
                    assert((*node)->Element_children == *children);
                    assert(decreases_to!(*children => children@[i as int]));
                    assert(decreases_to!(*node => children@[i as int]));
                }
                let found = detect_base(&children[i]);
                proof {
                    lemma_models_index(children@, children@.len() as int, i as int);
                }
                if let Some(b) = found {
                    return Some(b);
                }
                i += 1;
            }
            None
        },
    }
}

/// The effective base, resolved once per run: a detected base wins when
/// detection is on; else the explicit base string decides, and a string
/// that does not parse silently yields no base.
pub open spec fn resolved_base(
    explicit: Option<Seq<char>>,
    detect: bool,
    doc: NodeModel,
) -> Option<(Seq<char>, Seq<char>)> {
    let detected = if detect {
        detected_base(doc)
    } else {
        None
    };
    if detected is Some {
        detected
    } else {
        match explicit {
            Some(s) => parsed_url_of(s),
            None => None,
        }
    }
}

/// The view of an optional explicit base string.
pub open spec fn explicit_model(explicit: Option<String>) -> Option<Seq<char>> {
    match explicit {
        Some(s) => Some(s@),
        None => None,
    }
}

/// Computes the effective base of a run, as `resolved_base` states.
pub fn resolve_base(explicit: &Option<String>, detect: bool, document: &Node) -> (r: Option<
    BaseUrl,
>)
    ensures
        match r {
            Some(b) => resolved_base(explicit_model(*explicit), detect, model(*document)) == Some(
                (b.scheme@, b.authority@),
            ),
            None => resolved_base(explicit_model(*explicit), detect, model(*document)) is None,
        },
{
    if detect {
        if let Some(b) = detect_base(document) {
            return Some(b);
        }
        match explicit {
            Some(s) => parse_absolute_url(s.as_str()),
            None => None,
        }
    } else {
        match explicit {
            Some(s) => parse_absolute_url(s.as_str()),
            None => None,
        }
    }
}

/// Base precedence: with detection on, a detectable base wins over any
/// explicit one; when detection finds nothing, the explicit string decides.
pub proof fn lemma_base_precedence(explicit: Option<Seq<char>>, doc: NodeModel)
    ensures
        detected_base(doc) is Some ==> resolved_base(explicit, true, doc) == detected_base(doc),
        detected_base(doc) is None ==> resolved_base(explicit, true, doc) == (match explicit {
            Some(s) => parsed_url_of(s),
            None => None,
        }),
        resolved_base(explicit, false, doc) == (match explicit {
            Some(s) => parsed_url_of(s),
            None => None,
        }),
{
}

proof fn lemma_detected_first(s: Seq<NodeModel>, t: int, i: int)
    requires
        0 <= t <= i < s.len(),
        detected_base(s[i]) is Some,
    ensures
        exists|m: int|
            t <= m <= i && #[trigger] detected_base(s[m]) is Some && detected_from(s, t)
                == detected_base(s[m]) && (forall|k: int|
                t <= k < m ==> detected_base(#[trigger] s[k]) is None),
    decreases i - t,
{
    if detected_base(s[t]) is Some {
        assert(detected_base(s[t]) is Some && detected_from(s, t) == detected_base(s[t]) && (
        forall|k: int| t <= k < t ==> detected_base(#[trigger] s[k]) is None));
    } else {
        lemma_detected_first(s, t + 1, i);
        let m = choose|m: int|
            t + 1 <= m <= i && #[trigger] detected_base(s[m]) is Some && detected_from(s, t + 1)
                == detected_base(s[m]) && (forall|k: int|
                t + 1 <= k < m ==> detected_base(#[trigger] s[k]) is None);
        assert(detected_from(s, t) == detected_from(s, t + 1));
        assert(t <= m <= i && detected_base(s[m]) is Some && detected_from(s, t) == detected_base(
            s[m],
        ) && (forall|k: int| t <= k < m ==> detected_base(#[trigger] s[k]) is None));
    }
}

/// First base wins: among the children of a node, if any child's subtree
/// yields a detectable base, the scan returns the first such one, and every
/// earlier child yields none. A document with two `base` elements therefore
/// uses only the first parseable one.
pub proof fn lemma_first_base_wins(s: Seq<NodeModel>, i: int)
    requires
        0 <= i < s.len(),
        detected_base(s[i]) is Some,
    ensures
        detected_from(s, 0) is Some,
        exists|m: int|
            0 <= m <= i && #[trigger] detected_base(s[m]) is Some && detected_from(s, 0)
                == detected_base(s[m]) && (forall|k: int|
                0 <= k < m ==> detected_base(#[trigger] s[k]) is None),
{
    lemma_detected_first(s, 0, i);
}

} // verus!

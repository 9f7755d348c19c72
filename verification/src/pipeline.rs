//! The per-node output stage: which rendering a run's flags select, and
//! the rendering itself for the modes the library computes.

use vstd::prelude::*;
use crate::dom::Node;
use crate::dom::model;
use crate::extract::select_attributes;
use crate::extract::selected_attrs;
use crate::extract::serialize_text;
use crate::extract::text_of;
use crate::pretty::pretty_of;
use crate::pretty::pretty_print;

verus! {

/// The terminal rendering of a matched node.
#[derive(PartialEq, Eq, Structural, Clone, Copy, Debug)]
pub enum OutputMode {
    Attributes,
    TextOnly,
    Pretty,
    Raw,
}

/// The mode a run's flags select: attribute extraction wins over text
/// extraction, which wins over pretty-printing, which wins over raw
/// serialization.
pub open spec fn spec_output_mode(has_attributes: bool, text_only: bool, pretty: bool) -> OutputMode {
    if has_attributes {
        OutputMode::Attributes
    } else if text_only {
        OutputMode::TextOnly
    } else if pretty {
        OutputMode::Pretty
    } else {
        OutputMode::Raw
    }
}

/// Picks the output mode of a run, as `spec_output_mode` states.
pub fn output_mode(has_attributes: bool, text_only: bool, pretty: bool) -> (r: OutputMode)
    ensures
        r == spec_output_mode(has_attributes, text_only, pretty),
{
    if has_attributes {
        OutputMode::Attributes
    } else if text_only {
        OutputMode::TextOnly
    } else if pretty {
        OutputMode::Pretty
    } else {
        OutputMode::Raw
    }
}

/// Renders one matched node in the given mode. Raw serialization is not the
/// library's: for it the result is `None`, and only for it.
pub fn node_output(
    node: &Node,
    mode: OutputMode,
    attributes: &Vec<String>,
    ignore_whitespace: bool,
) -> (r: Option<String>)
    ensures
        match r {
            Some(s) => mode != OutputMode::Raw && s@ == (match mode {
                OutputMode::Attributes => selected_attrs(model(*node), attributes.deep_view()),
                OutputMode::TextOnly => text_of(model(*node), ignore_whitespace),
                OutputMode::Pretty => pretty_of(model(*node), Seq::empty()),
                OutputMode::Raw => Seq::empty(),
            }),
            None => mode == OutputMode::Raw,
        },
{
    match mode {
        OutputMode::Attributes => Some(select_attributes(node, attributes)),
        OutputMode::TextOnly => Some(serialize_text(node, ignore_whitespace)),
        OutputMode::Pretty => Some(pretty_print(node)),
        OutputMode::Raw => None,
    }
}

} // verus!

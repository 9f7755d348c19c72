//! A verified core for an HTML filtering tool: a document tree with a
//! mathematical model, base-URL resolution, root-relative link rewriting,
//! text and attribute extraction, and a pretty-printing serializer.

pub mod chars;
pub mod dom;
pub mod base;
pub mod extract;
pub mod pipeline;
pub mod pretty;
pub mod rewrite;

//! Renders posts of a blogging platform's rich-text model as HTML, and decides what a
//! versioned content cache in front of the remote sources does.
//!
//! - `model`: paragraphs, annotations and snippet sets.
//! - `resolver`: a paragraph's body, its annotations turned into tags that always nest.
//! - `markup`, `block`: the HTML of inline annotations and of blocks, and the list state
//!   carried across paragraphs.
//! - `document`: a whole post, one fragment per paragraph.
//! - `cache`: version markers, fetch-or-populate decisions and snippet-set addressing.
//! - `highlight`: colouring of snippet files.
//! - `routes`, `text`: paths the service answers on, and string helpers.
use vstd::prelude::*;

pub mod block;
pub mod cache;
pub mod document;
pub mod highlight;
pub mod markup;
pub mod model;
pub mod resolver;
pub mod routes;
pub mod text;

verus! {

} // verus!

//! A lenient markup-to-tree parser.
//!
//! The library turns a raw text buffer into an ordered forest of nodes
//! (text runs, elements with attributes, comments), tolerating malformed
//! input instead of rejecting it: unclosed tags are repaired by splicing,
//! malformed comments degrade to empty comments, and missing attribute
//! values degrade to empty strings.

pub mod chars;
pub mod dom;
pub mod html;
pub mod model;
pub mod scan;
pub mod strutil;

pub use dom::AttrMap;
pub use html::HtmlParser;
pub use dom::ElementData;
pub use dom::Node;
pub use dom::NodeType;

//! An element-tree style XML library.
//!
//! A `Document` holds an XML declaration (version, encoding) and at most one
//! root `Element`. Trees are built from a stream of parse events and written
//! back out as a stream of output events; slash-separated path queries
//! navigate a built tree.
//!
//! The tree builder (`tree`), the tree serializer (`emit`), the path and
//! predicate queries (`element`) and the round-trip law (`roundtrip`) are
//! verified against the models in `element`, `events` and `document`. The
//! lexical event source and sink — tokenizing, escaping, indentation — are
//! outside collaborators reached through the trusted boundary in `stream`,
//! as is the attribute store's map in `attrs`.

pub mod attrs;
pub mod builder;
pub mod document;
pub mod element;
pub mod emit;
pub mod errors;
pub mod events;
pub mod roundtrip;
pub mod stream;
pub mod tree;
pub mod version;

pub use builder::ElementBuilder;
pub use document::Document;
pub use element::Element;
pub use errors::TreexmlError;
pub use version::XmlVersion;

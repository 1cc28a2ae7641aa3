//! A lightweight HTML/XHTML tree builder and formatter.
//!
//! A tokenizer hands the library an ordered, nested stream of typed events
//! ([`Event`]); the library builds a classified and validated tree ([`Dom`]),
//! renders it back to markup, and walks it in pre-order without recursion.
pub mod span;
pub mod text;
pub mod order;
pub mod element;
pub mod node;
pub mod event;
pub mod error;
pub mod builder;
pub mod dom;
pub mod options;
pub mod format;
pub mod laws;
pub mod iter;

pub use dom::{Dom, DomVariant};
pub use element::{Attribute, Element, ElementVariant};
pub use error::Error;
pub use event::{Event, Rule};
pub use iter::NodeIntoIterator;
pub use node::Node;
pub use options::FormattingOptions;
pub use span::SourceSpan;

//! Recognizes a small inline annotation syntax, `{:.class #id key="value"}`,
//! at the head of a paragraph in a flattened document event stream, and
//! rewraps each annotated paragraph in a synthetic block-level wrapper that
//! carries the parsed classes, id and attributes, leaving every other event
//! untouched.

pub mod events;
pub mod grammar;
pub mod preprocessor;
pub mod rewriter;
pub mod scanner;

pub use grammar::any;
pub use grammar::attr;
pub use grammar::attr_list_def;
pub use grammar::attributes;
pub use grammar::class;
pub use grammar::id;
pub use grammar::identifier;
pub use grammar::string;
pub use grammar::wrapped;
pub use grammar::AttrListDef;
pub use grammar::Attribute;
pub use grammar::Class;
pub use events::BlockKind;
pub use events::Event;
pub use preprocessor::Classy;
pub use rewriter::render_wrapper_open;
pub use rewriter::rewrite;
pub use rewriter::transform;
pub use scanner::scan;
pub use scanner::Annotation;

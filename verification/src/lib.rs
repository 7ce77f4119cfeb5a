//! Scaffolding generator for declarative infrastructure configurations.
//!
//! The library walks an already-parsed configuration document — a generic
//! nested key/value tree — and derives two kinds of boilerplate declaration
//! blocks: one `variable` block for every distinct `var.<name>` reference
//! found in any string leaf, and one `output` block for every addressable
//! attribute of the `resource`, `data`, `locals` and `module` blocks at the
//! top of the document.

pub mod block;
pub mod collect;
pub mod node;
pub mod outputs;
pub mod order;
pub mod scan;

pub use block::Attr;
pub use block::AttrValue;
pub use block::DeclKind;
pub use block::DeclarationBlock;
pub use collect::collect_variables;
pub use node::Field;
pub use node::Node;
pub use outputs::derive_outputs;

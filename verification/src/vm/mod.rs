//! What the toolkit asks of, and offers to, the language runtime that
//! embeds it.

pub mod edge_shape;
pub mod scanning;

pub use scanning::EdgeVisitor;
pub use scanning::Scanning;

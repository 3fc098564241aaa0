//! Reader for a self-describing binary asset container ("tagfile") holding
//! typed, schema-carrying node graphs, together with a structural decoder for
//! spline-compressed animation payloads.
//!
//! The reader works on fully materialized byte buffers; floats are carried as
//! their IEEE-754 bit patterns and evaluated by callers.

pub mod compressedanimation;
mod error;
mod node;
pub mod tagfile;
mod value;
mod walker;

pub use error::Error;
pub use node::{Definition, Field, FieldKind, Node};
pub use value::{TryFromValueError, Value};
pub use walker::NodeWalker;

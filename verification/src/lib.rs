//! Line-coverage reports in the covdir format: the tree of nodes, its
//! order-preserving decoder, and the two renderings of a root node.

pub mod decode;
pub mod entries;
pub mod grcov;
pub mod json;
pub mod node;
pub mod numeral;
pub mod report;
pub mod schema;

pub use crate::decode::deserialize_kv_vec;
pub use crate::entries::{KeyValueVec, KeyValueVisitor};
pub use crate::grcov::{grcov_arguments, grcov_verdict, GrcovConfig, GrcovFailure};
pub use crate::json::{Json, JsonNumber, SyntaxError};
pub use crate::node::Node;
pub use crate::numeral::fmt_number;
pub use crate::report::{write_output, write_summary};
pub use crate::schema::{DecodeError, Field, Problem, SchemaError};

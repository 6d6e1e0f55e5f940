//! A YAML parser that keeps, for every node, its position, tag and anchor.
//!
//! The document model lives in [`yaml`], [`node`] and [`anchors`]; the parser
//! is a backtracking recursive descent over raw bytes.
pub mod anchors;
pub mod node;
pub mod parser;
pub mod tags;
pub mod text;
pub mod yaml;

pub use crate::anchors::AnchorTable;
pub use crate::node::{Deco, Inner, Located, Node, NodeBase};
pub use crate::parser::base::{PError, Parser, TakeOpt};
pub use crate::parser::document::parse;
pub use crate::yaml::{insert_entry, NodeView, Payload, ToYaml, Yaml, YamlView};

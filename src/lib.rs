//! Parser for the line-oriented scene and resource text format of a game engine's
//! editor: typed values, block headers, a path-addressed property store, and the
//! scene tree rebuilt from declarative parent paths.
use vstd::prelude::*;

pub mod literal;
pub mod number;
pub mod property;
pub mod scene;
pub mod stack;
pub mod str_helper;
pub mod text;
pub mod tscn_helper;
pub mod types;

pub use property::PropertyTrait;
pub use scene::{Loader, NodeEntry, ParseError, Tscn};
pub use str_helper::StrHelper;
pub use tscn_helper::{Command, Node, NodeType, TscnHelper};
pub use types::{ControlPoint, Curve, Decimal, PropertyMap, VarType, Vector2};

verus! {

/// Whether the text is at least two characters long and starts with `start` and
/// ends with `end`.
pub open spec fn borders(s: Seq<char>, start: char, end: char) -> bool {
    s.len() >= 2 && s[0] == start && s[s.len() - 1] == end
}

} // verus!

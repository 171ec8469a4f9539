//! The matches of a grammar-driven parse as a tree of text lines, for a
//! quick look at what a grammar does with an input.
//!
//! ```text
//!  expr
//!  ├─ expr
//!  │  ├─ val "u"
//!  │  ├─ op "+"
//!  │  └─ expr
//!  │     ├─ val "v"
//!  │     ├─ op "+"
//!  │     └─ val "w"
//!  ├─ op "+"
//!  ├─ expr
//!  │  ├─ val "x"
//!  │  ├─ op "+"
//!  │  └─ val "y"
//!  ├─ op "+"
//!  └─ val "z"
//! ```
//!
//! A parse hands over a forest of [`ParseNode`]s. [`into_ascii_tree_nodes`]
//! turns it into [`DisplayTree`]s: a match with nothing displayed inside it
//! becomes a leaf that shows the rule's name and the matched text, any other
//! match a node that shows the rule's name above its children; the matches
//! of the rule `EOI` are left out. [`render`] draws one display tree, and
//! [`into_ascii_tree`] does both for a whole forest. [`report`] decides what
//! is shown for a parse that may have failed.
//!
//! Every function is verified against a contract over the mathematical
//! values of its arguments: [`format::formatted`] is the text of a forest,
//! [`transform::display_forest`] what is displayed of it, and
//! `DisplayTreeView::rendered` the text of one tree. The matched text is
//! trimmed by `str::trim` and escaped with the help of `escape_string`, and
//! the trees are drawn by `ascii_tree`; what the contracts take from these
//! three is stated where they are called, in [`text`] and in [`render`].

pub mod display;
pub mod error;
pub mod format;
pub mod node;
pub mod render;
pub mod report;
pub mod text;
pub mod transform;

pub use display::DisplayTree;
pub use error::FormatError;
pub use format::{into_ascii_tree, strip_root_line};
pub use node::ParseNode;
pub use render::render;
pub use report::{report, Report};
pub use text::escape;
pub use transform::into_ascii_tree_nodes;

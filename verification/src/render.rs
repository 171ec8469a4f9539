//! Drawing a display tree as text.

use vstd::prelude::*;
use crate::display::{lemma_trees_view, trees_view, DisplayTree, DisplayTreeView};
use crate::error::FormatError;

verus! {

/// What stands before a line of a child: before its first line the branch
/// that joins it to its parent, before its other lines the parent's rail,
/// which ends with the last child.
pub open spec fn connector(first_line: bool, last_child: bool) -> Seq<char> {
    if first_line {
        if last_child {
            seq!['└', '─', ' ']
        } else {
            seq!['├', '─', ' ']
        }
    } else {
        if last_child {
            seq![' ', ' ', ' ']
        } else {
            seq!['│', ' ', ' ']
        }
    }
}

/// The lines of one child behind their connectors.
pub open spec fn indented(block: Seq<Seq<char>>, last_child: bool) -> Seq<Seq<char>> {
    Seq::new(block.len(), |i: int| connector(i == 0, last_child) + block[i])
}

/// The lines below a label: the block of each child, indented, from the
/// first child to the last.
pub open spec fn branches(blocks: Seq<Seq<Seq<char>>>) -> Seq<Seq<char>>
    decreases blocks.len(),
{
    if blocks.len() == 0 {
        Seq::empty()
    } else {
        indented(blocks.first(), blocks.len() == 1) + branches(blocks.drop_first())
    }
}

/// The text of a sequence of lines: each line behind one space and before
/// one line feed.
pub open spec fn joined(lines: Seq<Seq<char>>) -> Seq<char>
    decreases lines.len(),
{
    if lines.len() == 0 {
        Seq::empty()
    } else {
        seq![' '] + lines.first() + seq!['\n'] + joined(lines.drop_first())
    }
}

/// The lines of each tree of a forest, in order.
pub open spec fn blocks(trees: Seq<DisplayTreeView>) -> Seq<Seq<Seq<char>>>
    decreases trees,
{
    if trees.len() == 0 {
        Seq::empty()
    } else {
        blocks(trees.drop_last()).push(trees.last().lines())
    }
}

impl DisplayTreeView {
    /// The lines that a tree is drawn as: its own line, then the lines of
    /// its children behind their connectors.
    pub open spec fn lines(self) -> Seq<Seq<char>>
        decreases self,
    {
        match self {
            DisplayTreeView::Leaf(line) => seq![line],
            DisplayTreeView::Node(label, children) => seq![label] + branches(blocks(children)),
        }
    }

    /// The text that a tree is drawn as.
    pub open spec fn rendered(self) -> Seq<char> {
        joined(self.lines())
    }
}

/// Where the first line of child `i` stands among the lines below a label:
/// behind all the lines of the children before it.
pub open spec fn first_line_at(blocks: Seq<Seq<Seq<char>>>, i: int) -> int
    decreases i,
{
    if i <= 0 {
        0
    } else {
        blocks.first().len() + first_line_at(blocks.drop_first(), i - 1)
    }
}

/// The tree type of `ascii_tree`, which draws the trees.
#[verifier::external_type_specification]
#[verifier::external_body]
pub struct ExTree(ascii_tree::Tree);

/// What a tree of `ascii_tree` holds, as lines: the lines of a leaf; for a
/// node its label, then the lines of each child behind the connectors of
/// that child.
pub uninterp spec fn drawn_lines(tree: ascii_tree::Tree) -> Seq<Seq<char>>;

/// Whether every leaf of a tree of `ascii_tree`, at every depth, holds at
/// least one line.
pub uninterp spec fn leaves_hold_lines(tree: ascii_tree::Tree) -> bool;

/// `ascii_tree::Tree::Leaf` with one line: it holds that line.
#[verifier::external_body]
fn outside_leaf(line: String) -> (tree: ascii_tree::Tree)
    ensures
        drawn_lines(tree) == seq![line@],
        leaves_hold_lines(tree),
{
    ascii_tree::Tree::Leaf(vec![line])
}

/// `ascii_tree::Tree::Node`: it holds its label, then the lines of each
/// child: the first line of a child behind `├─ `, its other lines behind
/// `│  `; those of the last child behind `└─ ` and three spaces. Its leaves
/// are those of its children.
#[verifier::external_body]
fn outside_node(label: String, children: Vec<ascii_tree::Tree>) -> (tree: ascii_tree::Tree)
    ensures
        drawn_lines(tree) == seq![label@] + branches(
            children@.map_values(|child: ascii_tree::Tree| drawn_lines(child)),
        ),
        leaves_hold_lines(tree) == (forall|i: int|
            0 <= i < children@.len() ==> leaves_hold_lines(#[trigger] children@[i])),
{
    ascii_tree::Tree::Node(label, children)
}

/// `ascii_tree::write_tree` into an empty `String`: it succeeds, and the text
/// is the tree's lines, each behind one space and before one line feed.
///
/// A leaf without lines is left out: below a node, `ascii_tree` writes the
/// connector of such a leaf and nothing behind it, no line feed either.
///
/// Its one way to fail is that a `write!` of a label or a line to the writer
/// fails. The writer here is a `String`, and std says of `fmt::Write for
/// String` that it never returns an error itself, and of the formatting of
/// strings that it is infallible but for the stream that it writes to.
#[verifier::external_body]
fn write_tree(tree: &ascii_tree::Tree) -> (written: Result<String, std::fmt::Error>)
    requires
        leaves_hold_lines(*tree),
    ensures
        written is Ok,
        written matches Ok(text) ==> text@ == joined(drawn_lines(*tree)),
{
    let mut text = String::new();
    match ascii_tree::write_tree(&mut text, tree) {
        Ok(()) => Ok(text),
        Err(error) => Err(error),
    }
}

/// The same tree for `ascii_tree`.
fn outside_tree(tree: &DisplayTree) -> (outside: ascii_tree::Tree)
    ensures
        drawn_lines(outside) == tree@.lines(),
        leaves_hold_lines(outside),
    decreases tree,
{
    match tree {
        DisplayTree::Leaf(line) => outside_leaf(line.clone()),
        DisplayTree::Node(label, children) => {
            let mut outside_children: Vec<ascii_tree::Tree> = Vec::new();
            let mut i: usize = 0;
            while i < children.len()
                invariant
                    decreases_to!(tree => children),
                    i <= children.len(),
                    outside_children@.len() == i,
                    forall|j: int|
                        0 <= j < i ==> drawn_lines(#[trigger] outside_children@[j])
                            == children@[j]@.lines(),
                    forall|j: int| 0 <= j < i ==> leaves_hold_lines(#[trigger] outside_children@[j]),
                decreases children.len() - i,
            {
                outside_children.push(outside_tree(&children[i]));
                i += 1;
            }
            proof {
                lemma_trees_view(children@);
                lemma_blocks(trees_view(children@));
                assert(outside_children@.map_values(|child: ascii_tree::Tree| drawn_lines(child))
                    =~= blocks(trees_view(children@)));
            }
            outside_node(label.clone(), outside_children)
        },
    }
}

/// Draws a tree: the root's line, below it the lines of its children behind
/// their connectors, each line behind one space and before one line feed.
/// No tree makes it fail: the one failure would be that of the text being
/// written, and a `String` takes every character.
pub fn render(tree: &DisplayTree) -> (r: Result<String, FormatError>)
    ensures
        r matches Ok(text) && text@ == tree@.rendered(),
{
    let outside = outside_tree(tree);
    match write_tree(&outside) {
        Ok(text) => Ok(text),
        Err(error) => Err(FormatError::from(error)),
    }
}

/// `blocks` keeps the length, and holds the lines of each tree in its place.
pub proof fn lemma_blocks(trees: Seq<DisplayTreeView>)
    ensures
        blocks(trees).len() == trees.len(),
        forall|i: int| 0 <= i < trees.len() ==> (#[trigger] blocks(trees)[i]) == trees[i].lines(),
    decreases trees.len(),
{
    if trees.len() > 0 {
        lemma_blocks(trees.drop_last());
    }
}

/// Below a label, the first line of each child but the last begins with the
/// branch `├─ `, and that of the last child with the branch `└─ `.
pub proof fn lemma_first_lines(blocks: Seq<Seq<Seq<char>>>, i: int)
    requires
        0 <= i < blocks.len(),
        blocks[i].len() > 0,
    ensures
        0 <= first_line_at(blocks, i) < branches(blocks).len(),
        branches(blocks)[first_line_at(blocks, i)] == connector(true, i == blocks.len() - 1)
            + blocks[i][0],
    decreases i,
{
    let head = indented(blocks.first(), blocks.len() == 1);
    let rest = blocks.drop_first();
    if i == 0 {
        assert(branches(blocks)[0] == head[0]);
    } else {
        lemma_first_lines(rest, i - 1);
        let at = first_line_at(rest, i - 1);
        assert(rest[i - 1] == blocks[i]);
        assert(branches(blocks)[head.len() + at] == branches(rest)[at]);
    }
}

} // verus!

//! From a forest of matches to the text of its tree.

use vstd::prelude::*;
use crate::display::{lemma_trees_view, trees_view, DisplayTree, DisplayTreeView};
use crate::error::FormatError;
use crate::node::{forest_view, ParseNode, ParseNodeView};
use crate::render::{
    blocks, branches, connector, first_line_at, joined, lemma_blocks, lemma_first_lines, render,
};
use crate::text::{escaped, trimmed};
use crate::transform::{
    display_forest, display_tree, end_of_input, into_ascii_tree_nodes, leaf_line,
    lemma_markers_invisible, lemma_without_markers_is_marker_free, marker_free, without_markers,
};

verus! {

/// `text` without the line of a root that has no label: without its first
/// two characters where they are a space and a line feed, else `text`.
pub open spec fn without_root_line(text: Seq<char>) -> Seq<char> {
    if text.len() >= 2 && text[0] == ' ' && text[1] == '\n' {
        text.skip(2)
    } else {
        text
    }
}

/// The text for a forest of matches. With nothing to display it is empty.
/// One display tree is drawn as it is. Several are drawn as the children of
/// a root that has no line of its own.
pub open spec fn formatted(forest: Seq<ParseNodeView>) -> Seq<char> {
    let trees = display_forest(forest);
    if trees.len() == 0 {
        Seq::empty()
    } else if trees.len() == 1 {
        trees[0].rendered()
    } else {
        joined(branches(blocks(trees)))
    }
}

/// Takes the line of a root without a label off a drawn tree.
pub fn strip_root_line(text: String) -> (stripped: String)
    ensures
        stripped@ == without_root_line(text@),
{
    let drawn = text.as_str();
    let len = drawn.unicode_len();
    if len >= 2 && drawn.get_char(0) == ' ' && drawn.get_char(1) == '\n' {
        drawn.substring_char(2, len).to_owned()
    } else {
        text
    }
}

/// Formats the matches of a parse as a tree of text lines. End-of-input
/// markers are left out at every depth. No forest makes it fail: the one
/// failure would be that of the text being written.
pub fn into_ascii_tree(forest: &Vec<ParseNode>) -> (r: Result<String, FormatError>)
    ensures
        r matches Ok(text) && text@ == formatted(forest_view(forest@)),
        forest@.len() == 0 ==> (r matches Ok(text) && text@ == Seq::<char>::empty()),
{
    let nodes = into_ascii_tree_nodes(forest);
    proof {
        lemma_trees_view(nodes@);
    }
    if nodes.len() == 0 {
        Ok(String::new())
    } else if nodes.len() == 1 {
        render(&nodes[0])
    } else {
        proof {
            lemma_anonymous_root(trees_view(nodes@));
        }
        let root = DisplayTree::Node(String::new(), nodes);
        match render(&root) {
            Ok(text) => Ok(strip_root_line(text)),
            Err(error) => Err(error),
        }
    }
}

/// A root without a label, drawn and without its own line, is the lines of
/// its children behind their connectors.
pub proof fn lemma_anonymous_root(children: Seq<DisplayTreeView>)
    ensures
        without_root_line(DisplayTreeView::Node(Seq::empty(), children).rendered()) == joined(
            branches(blocks(children)),
        ),
{
    let below = branches(blocks(children));
    let lines = DisplayTreeView::Node(Seq::empty(), children).lines();
    assert(lines.first() =~= Seq::<char>::empty());
    assert(lines.drop_first() =~= below);
    assert(joined(lines) =~= seq![' ', '\n'] + joined(below));
    assert(joined(lines).skip(2) =~= joined(below));
}

/// One match with no match inside it, which is no end-of-input marker, is
/// drawn as one line: a space, the rule's name, a space, the trimmed and
/// escaped text between double quotes, and a line feed.
pub proof fn lemma_single_leaf(node: ParseNodeView)
    requires
        node.children.len() == 0,
        node.rule != end_of_input(),
    ensures
        formatted(seq![node]) == seq![' '] + node.rule + seq![' ', '"'] + escaped(
            trimmed(node.text),
        ) + seq!['"', '\n'],
{
    let forest = seq![node];
    let line = leaf_line(node.rule, trimmed(node.text));
    assert(display_forest(forest.drop_last()) =~= Seq::<DisplayTreeView>::empty());
    assert(display_forest(forest) =~= seq![display_tree(node)]);
    assert(display_tree(node) == DisplayTreeView::Leaf(line));
    assert(joined(seq![line].drop_first()) =~= Seq::<char>::empty());
    assert(formatted(forest) =~= seq![' '] + line + seq!['\n']);
    assert(formatted(forest) =~= seq![' '] + node.rule + seq![' ', '"'] + escaped(
        trimmed(node.text),
    ) + seq!['"', '\n']);
}

/// Where two or more trees are displayed, the text is their lines behind
/// connectors and has no line for a root: the first line of each tree but
/// the last begins with the branch `├─ `, that of the last tree with the
/// branch `└─ `.
pub proof fn lemma_siblings(forest: Seq<ParseNodeView>, i: int)
    requires
        display_forest(forest).len() >= 2,
        0 <= i < display_forest(forest).len(),
    ensures
        ({
            let trees = display_forest(forest);
            let below = branches(blocks(trees));
            let at = first_line_at(blocks(trees), i);
            &&& formatted(forest) == joined(below)
            &&& 0 <= at < below.len()
            &&& below[at] == connector(true, i == trees.len() - 1) + trees[i].lines()[0]
        }),
{
    let trees = display_forest(forest);
    lemma_blocks(trees);
    lemma_first_lines(blocks(trees), i);
}

/// Where two or more trees are displayed, the text begins with a space and
/// the branch of the first tree, never with a space and a line feed.
pub proof fn lemma_siblings_begin_with_branch(forest: Seq<ParseNodeView>)
    requires
        display_forest(forest).len() >= 2,
    ensures
        formatted(forest).len() >= 4,
        formatted(forest).take(4) == seq![' ', '├', '─', ' '],
        without_root_line(formatted(forest)) == formatted(forest),
{
    let trees = display_forest(forest);
    let below = branches(blocks(trees));
    lemma_blocks(trees);
    lemma_first_lines(blocks(trees), 0);
    assert(below.first() == connector(true, false) + trees[0].lines()[0]);
    assert(formatted(forest).take(4) =~= seq![' ', '├', '─', ' ']);
}

/// The end-of-input markers, at every depth, change nothing in the text.
pub proof fn lemma_markers_never_drawn(forest: Seq<ParseNodeView>)
    ensures
        marker_free(without_markers(forest)),
        formatted(without_markers(forest)) == formatted(forest),
{
    lemma_without_markers_is_marker_free(forest);
    lemma_markers_invisible(forest);
}

} // verus!

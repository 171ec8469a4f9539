//! From the match tree to the display tree.

use vstd::prelude::*;
use crate::display::{lemma_trees_view, trees_view, DisplayTree, DisplayTreeView};
use crate::node::{forest_view, lemma_forest_view, ParseNode, ParseNodeView};
use crate::text::{escape, escaped, trimmed};

verus! {

/// The name of the rule that marks the end of the input.
pub open spec fn end_of_input() -> Seq<char> {
    seq!['E', 'O', 'I']
}

/// The line of a leaf: the rule's name, a space, and the escaped content
/// between double quotes.
pub open spec fn leaf_line(rule: Seq<char>, content: Seq<char>) -> Seq<char> {
    rule + seq![' ', '"'] + escaped(content) + seq!['"']
}

/// The display tree of a match that is not an end-of-input marker: a leaf
/// where no match inside it is displayed, else a node above those that are.
pub open spec fn display_tree(node: ParseNodeView) -> DisplayTreeView
    decreases node,
{
    let children = display_forest(node.children);
    if children.len() == 0 {
        DisplayTreeView::Leaf(leaf_line(node.rule, trimmed(node.text)))
    } else {
        DisplayTreeView::Node(node.rule, children)
    }
}

/// The display trees of a forest: one for each match that is not an
/// end-of-input marker, in the order of the matches.
pub open spec fn display_forest(forest: Seq<ParseNodeView>) -> Seq<DisplayTreeView>
    decreases forest,
{
    if forest.len() == 0 {
        Seq::empty()
    } else if forest.last().rule == end_of_input() {
        display_forest(forest.drop_last())
    } else {
        display_forest(forest.drop_last()).push(display_tree(forest.last()))
    }
}

/// A forest without its end-of-input markers, at every depth.
pub open spec fn without_markers(forest: Seq<ParseNodeView>) -> Seq<ParseNodeView>
    decreases forest,
{
    if forest.len() == 0 {
        Seq::empty()
    } else if forest.last().rule == end_of_input() {
        without_markers(forest.drop_last())
    } else {
        without_markers(forest.drop_last()).push(
            ParseNodeView {
                rule: forest.last().rule,
                text: forest.last().text,
                children: without_markers(forest.last().children),
            },
        )
    }
}

/// Whether a forest holds no end-of-input marker at any depth.
pub open spec fn marker_free(forest: Seq<ParseNodeView>) -> bool
    decreases forest,
{
    forall|i: int|
        0 <= i < forest.len() ==> (#[trigger] forest[i]).rule != end_of_input() && marker_free(
            forest[i].children,
        )
}

/// Whether `rule` names the end-of-input marker.
fn is_end_of_input(rule: &String) -> (b: bool)
    ensures
        b == (rule@ == end_of_input()),
{
    let marker = String::from_str("EOI");
    proof {
        reveal_strlit("EOI");
        assert(marker@ =~= end_of_input());
    }
    *rule == marker
}

/// The line of the leaf for a match of `rule` that spans `text`.
fn leaf_line_of(rule: &String, text: &String) -> (line: String)
    ensures
        line@ == leaf_line(rule@, trimmed(text@)),
{
    let content = text.as_str().trim();
    let quoted = escape(content);
    let mut line = rule.clone();
    proof {
        reveal_strlit(" \"");
        reveal_strlit("\"");
        assert(" \""@ =~= seq![' ', '"']);
        assert("\""@ =~= seq!['"']);
    }
    line.append(" \"");
    line.append(quoted.as_str());
    line.append("\"");
    line
}

/// The display trees of the matches in `forest`, in order. A match is a leaf
/// where no match inside it is displayed, else a node. End-of-input markers
/// are left out, with all that they hold.
pub fn into_ascii_tree_nodes(forest: &Vec<ParseNode>) -> (trees: Vec<DisplayTree>)
    ensures
        trees_view(trees@) == display_forest(forest_view(forest@)),
        forall|i: int| 0 <= i < trees.len() ==> (#[trigger] trees[i])@.well_formed(),
    decreases forest,
{
    let mut trees: Vec<DisplayTree> = Vec::new();
    let mut i: usize = 0;
    while i < forest.len()
        invariant
            i <= forest.len(),
            trees_view(trees@) == display_forest(forest_view(forest@).take(i as int)),
        decreases forest.len() - i,
    {
        let node = &forest[i];
        let children = into_ascii_tree_nodes(&node.children);
        proof {
            lemma_forest_view(forest@);
            let seen = forest_view(forest@).take(i + 1);
            assert(seen.drop_last() =~= forest_view(forest@).take(i as int));
            assert(seen.last() == node@);
        }
        if !is_end_of_input(&node.rule) {
            let ghost shown = trees@;
            let tree = if children.len() == 0 {
                DisplayTree::Leaf(leaf_line_of(&node.rule, &node.text))
            } else {
                DisplayTree::Node(node.rule.clone(), children)
            };
            proof {
                lemma_trees_view(children@);
                assert(tree@ == display_tree(node@));
            }
            trees.push(tree);
            assert(trees@.drop_last() =~= shown);
        }
        i += 1;
    }
    proof {
        lemma_forest_view(forest@);
        assert(forest_view(forest@).take(forest.len() as int) =~= forest_view(forest@));
        lemma_trees_view(trees@);
        lemma_display_well_formed(forest_view(forest@));
        assert forall|i: int| 0 <= i < trees.len() implies (#[trigger] trees[i])@.well_formed() by {
            assert(trees[i]@ == trees_view(trees@)[i]);
        }
    }
    trees
}

/// What is displayed has a child below every node.
pub proof fn lemma_display_well_formed(forest: Seq<ParseNodeView>)
    ensures
        forall|i: int|
            0 <= i < display_forest(forest).len() ==> (#[trigger] display_forest(
                forest,
            )[i]).well_formed(),
    decreases forest,
{
    if forest.len() > 0 {
        lemma_display_well_formed(forest.drop_last());
        lemma_display_well_formed(forest.last().children);
        let children = display_forest(forest.last().children);
        assert(display_tree(forest.last()).well_formed()) by {
            if children.len() > 0 {
                assert forall|i: int| 0 <= i < children.len() implies (
                #[trigger] children[i]).well_formed() by {}
            }
        }
        let shown = display_forest(forest);
        let shown_before = display_forest(forest.drop_last());
        assert forall|i: int| 0 <= i < shown.len() implies (#[trigger] shown[i]).well_formed() by {
            if i < shown_before.len() {
                assert(shown[i] == shown_before[i]);
            }
        }
    }
}

/// The matches are displayed from left to right, each by itself.
pub proof fn lemma_display_concat(a: Seq<ParseNodeView>, b: Seq<ParseNodeView>)
    ensures
        display_forest(a + b) == display_forest(a) + display_forest(b),
    decreases b.len(),
{
    if b.len() == 0 {
        assert(a + b =~= a);
    } else {
        assert((a + b).drop_last() =~= a + b.drop_last());
        lemma_display_concat(a, b.drop_last());
    }
}

/// An end-of-input marker among the matches, wherever it stands and whatever
/// it holds, changes nothing in what is displayed.
pub proof fn lemma_marker_invisible(
    before: Seq<ParseNodeView>,
    marker: ParseNodeView,
    after: Seq<ParseNodeView>,
)
    requires
        marker.rule == end_of_input(),
    ensures
        display_forest(before.push(marker) + after) == display_forest(before + after),
{
    assert(before.push(marker).drop_last() =~= before);
    lemma_display_concat(before.push(marker), after);
    lemma_display_concat(before, after);
}

/// A forest without its markers holds none, at any depth.
pub proof fn lemma_without_markers_is_marker_free(forest: Seq<ParseNodeView>)
    ensures
        marker_free(without_markers(forest)),
    decreases forest,
{
    if forest.len() > 0 {
        lemma_without_markers_is_marker_free(forest.drop_last());
        lemma_without_markers_is_marker_free(forest.last().children);
    }
}

/// The end-of-input markers, at every depth, change nothing in what is
/// displayed: neither which trees there are, nor whether a match is a leaf
/// or a node.
pub proof fn lemma_markers_invisible(forest: Seq<ParseNodeView>)
    ensures
        display_forest(without_markers(forest)) == display_forest(forest),
    decreases forest,
{
    if forest.len() > 0 {
        lemma_markers_invisible(forest.drop_last());
        lemma_markers_invisible(forest.last().children);
        if forest.last().rule != end_of_input() {
            let kept = without_markers(forest);
            assert(kept.drop_last() =~= without_markers(forest.drop_last()));
            assert(display_tree(kept.last()) == display_tree(forest.last()));
        }
    }
}

} // verus!

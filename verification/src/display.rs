//! The display tree: what is shown, before it is drawn.

use vstd::prelude::*;

verus! {

/// A tree of lines. A leaf is one line of text. A node is a label with its
/// children below it, from first to last.
#[derive(Debug, PartialEq, Eq)]
pub enum DisplayTree {
    Leaf(String),
    Node(String, Vec<DisplayTree>),
}

/// A `DisplayTree` as a mathematical value.
pub enum DisplayTreeView {
    Leaf(Seq<char>),
    Node(Seq<char>, Seq<DisplayTreeView>),
}

/// The value of one display tree.
pub open spec fn tree_view(tree: DisplayTree) -> DisplayTreeView
    decreases tree,
{
    match tree {
        DisplayTree::Leaf(line) => DisplayTreeView::Leaf(line@),
        DisplayTree::Node(label, children) => DisplayTreeView::Node(
            label@,
            trees_view(children@),
        ),
    }
}

/// The values of the display trees of a forest, in order.
pub open spec fn trees_view(trees: Seq<DisplayTree>) -> Seq<DisplayTreeView>
    decreases trees,
{
    if trees.len() == 0 {
        Seq::empty()
    } else {
        trees_view(trees.drop_last()).push(tree_view(trees.last()))
    }
}

impl View for DisplayTree {
    type V = DisplayTreeView;

    open spec fn view(&self) -> DisplayTreeView {
        tree_view(*self)
    }
}

impl DisplayTreeView {
    /// Every node, at every depth, has at least one child.
    pub open spec fn well_formed(self) -> bool
        decreases self,
    {
        match self {
            DisplayTreeView::Leaf(_) => true,
            DisplayTreeView::Node(_, children) => {
                &&& children.len() > 0
                &&& forall|i: int|
                    0 <= i < children.len() ==> (#[trigger] children[i]).well_formed()
            },
        }
    }
}

impl Clone for DisplayTree {
    fn clone(&self) -> (copy: DisplayTree)
        ensures
            copy@ == self@,
        decreases self,
    {
        match self {
            DisplayTree::Leaf(line) => DisplayTree::Leaf(line.clone()),
            DisplayTree::Node(label, children) => {
                let mut copies: Vec<DisplayTree> = Vec::new();
                let mut i: usize = 0;
                while i < children.len()
                    invariant
                        decreases_to!(self => children),
                        i <= children.len(),
                        copies.len() == i,
                        forall|j: int| 0 <= j < i ==> (#[trigger] copies[j])@ == children[j]@,
                    decreases children.len() - i,
                {
                    copies.push(children[i].clone());
                    i += 1;
                }
                proof {
                    lemma_trees_view(copies@);
                    lemma_trees_view(children@);
                    assert(trees_view(copies@) =~= trees_view(children@));
                }
                DisplayTree::Node(label.clone(), copies)
            },
        }
    }
}

/// `trees_view` keeps the length, and views each tree in its place.
pub proof fn lemma_trees_view(trees: Seq<DisplayTree>)
    ensures
        trees_view(trees).len() == trees.len(),
        forall|i: int| 0 <= i < trees.len() ==> (#[trigger] trees_view(trees)[i]) == trees[i]@,
    decreases trees.len(),
{
    if trees.len() > 0 {
        lemma_trees_view(trees.drop_last());
    }
}

} // verus!

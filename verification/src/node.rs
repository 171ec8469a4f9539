//! The match tree that a parse hands over.

use vstd::prelude::*;

verus! {

/// One matched rule: the rule's name, the text that it spans, and the matches
/// inside it, from left to right.
#[derive(Debug, PartialEq, Eq)]
pub struct ParseNode {
    pub rule: String,
    pub text: String,
    pub children: Vec<ParseNode>,
}

/// A `ParseNode` as a mathematical value.
pub struct ParseNodeView {
    pub rule: Seq<char>,
    pub text: Seq<char>,
    pub children: Seq<ParseNodeView>,
}

/// The value of one match.
pub open spec fn node_view(node: ParseNode) -> ParseNodeView
    decreases node,
{
    ParseNodeView {
        rule: node.rule@,
        text: node.text@,
        children: forest_view(node.children@),
    }
}

/// The values of the matches of a forest, in order.
pub open spec fn forest_view(forest: Seq<ParseNode>) -> Seq<ParseNodeView>
    decreases forest,
{
    if forest.len() == 0 {
        Seq::empty()
    } else {
        forest_view(forest.drop_last()).push(node_view(forest.last()))
    }
}

impl View for ParseNode {
    type V = ParseNodeView;

    open spec fn view(&self) -> ParseNodeView {
        node_view(*self)
    }
}

impl Clone for ParseNode {
    fn clone(&self) -> (copy: ParseNode)
        ensures
            copy@ == self@,
        decreases self,
    {
        let mut children: Vec<ParseNode> = Vec::new();
        let mut i: usize = 0;
        while i < self.children.len()
            invariant
                i <= self.children.len(),
                children.len() == i,
                forall|j: int| 0 <= j < i ==> (#[trigger] children[j])@ == self.children[j]@,
            decreases self.children.len() - i,
        {
            children.push(self.children[i].clone());
            i += 1;
        }
        proof {
            lemma_forest_view(children@);
            lemma_forest_view(self.children@);
            assert(forest_view(children@) =~= forest_view(self.children@));
        }
        ParseNode { rule: self.rule.clone(), text: self.text.clone(), children }
    }
}

/// `forest_view` keeps the length, and views each match in its place.
pub proof fn lemma_forest_view(forest: Seq<ParseNode>)
    ensures
        forest_view(forest).len() == forest.len(),
        forall|i: int| 0 <= i < forest.len() ==> (#[trigger] forest_view(forest)[i]) == forest[i]@,
    decreases forest.len(),
{
    if forest.len() > 0 {
        lemma_forest_view(forest.drop_last());
    }
}

} // verus!

//! The coverage tree.

use crate::entries::{distinct_keys, entry_views};
use crate::json::{JsonNumber, JsonNumberView};
use vstd::prelude::*;

verus! {

/// One node of a coverage report: a file or a directory.
#[derive(Debug, PartialEq, Eq)]
pub struct Node {
    /// The name under which the node is shown; empty for the root.
    pub name: String,
    pub lines_covered: usize,
    pub lines_missed: usize,
    pub lines_total: usize,
    /// The percentage as the document gives it. It is carried as it was read
    /// and never worked out from the counts.
    pub coverage_percent: JsonNumber,
    /// The named children, in the order of the document.
    pub children: Vec<(String, Node)>,
}

/// What a `Node` stands for.
pub struct NodeView {
    pub name: Seq<char>,
    pub lines_covered: nat,
    pub lines_missed: nat,
    pub lines_total: nat,
    pub coverage_percent: JsonNumberView,
    pub children: Seq<(Seq<char>, NodeView)>,
}

impl View for Node {
    type V = NodeView;

    open spec fn view(&self) -> NodeView
        decreases self,
    {
        NodeView {
            name: self.name@,
            lines_covered: self.lines_covered as nat,
            lines_missed: self.lines_missed as nat,
            lines_total: self.lines_total as nat,
            coverage_percent: self.coverage_percent@,
            children: Seq::new(
                self.children.len() as nat,
                |i: int|
                    if 0 <= i < self.children.len() {
                        (self.children[i].0@, self.children[i].1@)
                    } else {
                        (Seq::empty(), arbitrary())
                    },
            ),
        }
    }
}

/// The children of a node, each by its view.
pub open spec fn child_views(children: Seq<(String, Node)>) -> Seq<(Seq<char>, NodeView)> {
    entry_views(children)
}

/// A tree as the decoder gives it: counts that fit the machine, and no key
/// twice among the children of any node.
pub open spec fn well_formed(node: NodeView) -> bool
    decreases node,
{
    &&& node.lines_covered <= usize::MAX
    &&& node.lines_missed <= usize::MAX
    &&& node.lines_total <= usize::MAX
    &&& distinct_keys(node.children)
    &&& forall|i: int|
        0 <= i < node.children.len() ==> well_formed((#[trigger] node.children[i]).1)
}

/// A node's view holds the views of its children, in their order.
pub proof fn lemma_children_view(node: Node)
    ensures
        node@.children == child_views(node.children@),
{
    let views = node@.children;
    reveal_with_fuel(<Node as View>::view, 2);
    assert(views.len() == node.children@.len());
    assert forall|i: int| 0 <= i < views.len() implies views[i] == child_views(
        node.children@,
    )[i] by {
        assert(views[i] == (node.children[i].0@, node.children[i].1@));
    }
    assert(views =~= child_views(node.children@));
}

} // verus!

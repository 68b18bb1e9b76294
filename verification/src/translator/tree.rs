use crate::translator::translation::same_text;
use vstd::prelude::*;

verus! {

/// A node of the syntax tree of a program: its kind, the text that it
/// covers, the name of the field that it fills in its parent (empty where
/// it fills none), whether it is a named node, and its children in the
/// order of the text.
#[derive(Debug)]
pub struct SyntaxNode {
    pub kind: String,
    pub text: String,
    pub field: String,
    pub named: bool,
    pub children: Vec<SyntaxNode>,
}

/// What a node is to the contracts.
pub struct SyntaxNodeView {
    pub kind: Seq<char>,
    pub text: Seq<char>,
    pub field: Seq<char>,
    pub named: bool,
    pub children: Seq<SyntaxNodeView>,
}

/// The view of a node.
pub open spec fn node_view(n: SyntaxNode) -> SyntaxNodeView
    decreases n,
{
    SyntaxNodeView {
        kind: n.kind@,
        text: n.text@,
        field: n.field@,
        named: n.named,
        children: Seq::new(
            n.children.len() as nat,
            |i: int|
                if 0 <= i < n.children.len() {
                    node_view(n.children[i])
                } else {
                    SyntaxNodeView {
                        kind: Seq::empty(),
                        text: Seq::empty(),
                        field: Seq::empty(),
                        named: false,
                        children: Seq::empty(),
                    }
                },
        ),
    }
}

/// The views of a list of nodes.
pub open spec fn nodes_view(l: Seq<SyntaxNode>) -> Seq<SyntaxNodeView> {
    l.map_values(|n: SyntaxNode| node_view(n))
}

impl View for SyntaxNode {
    type V = SyntaxNodeView;

    open spec fn view(&self) -> SyntaxNodeView {
        node_view(*self)
    }
}

/// The children of the view of a node are the views of its children.
pub proof fn lemma_node_view(n: SyntaxNode)
    ensures
        n@.children == nodes_view(n.children@),
        n@.children.len() == n.children@.len(),
        forall|i: int| 0 <= i < n.children@.len() ==> (#[trigger] n@.children[i]) == n.children@[i]@,
{
    assert(n@.children =~= nodes_view(n.children@));
}

/// The place of the `k`-th named node among the nodes from `from` on.
pub open spec fn named_place(nodes: Seq<SyntaxNodeView>, k: nat, from: nat) -> Option<nat>
    decreases nodes.len() - from,
{
    if from >= nodes.len() {
        None
    } else if nodes[from as int].named {
        if k == 0 {
            Some(from)
        } else {
            named_place(nodes, (k - 1) as nat, from + 1)
        }
    } else {
        named_place(nodes, k, from + 1)
    }
}

/// The place of the first node from `from` on that fills the field `name`.
pub open spec fn field_place(nodes: Seq<SyntaxNodeView>, name: Seq<char>, from: nat) -> Option<nat>
    decreases nodes.len() - from,
{
    if from >= nodes.len() {
        None
    } else if nodes[from as int].field == name {
        Some(from)
    } else {
        field_place(nodes, name, from + 1)
    }
}

impl SyntaxNode {
    /// Whether the node is of the given kind.
    pub fn is(&self, kind: &str) -> (r: bool)
        ensures
            r == (self@.kind == kind@),
    {
        same_text(self.kind.as_str(), kind)
    }

    /// The place of the `k`-th named child of the node.
    pub fn named_child(&self, k: usize) -> (r: Option<usize>)
        ensures
            match r {
                Some(i) => named_place(self@.children, k as nat, 0) == Some(i as nat) && i
                    < self.children@.len(),
                None => named_place(self@.children, k as nat, 0) is None,
            },
    {
        proof {
            lemma_node_view(*self);
        }
        let mut left = k;
        let mut i: usize = 0;
        while i < self.children.len()
            invariant
                i <= self.children.len(),
                self@.children.len() == self.children@.len(),
                forall|j: int|
                    0 <= j < self.children@.len() ==> (#[trigger] self@.children[j])
                        == self.children@[j]@,
                named_place(self@.children, k as nat, 0) == named_place(
                    self@.children,
                    left as nat,
                    i as nat,
                ),
            decreases self.children.len() - i,
        {
            if self.children[i].named {
                if left == 0 {
                    return Some(i);
                }
                left -= 1;
            }
            i += 1;
        }
        None
    }

    /// The place of the first child of the node that fills the field
    /// `name`.
    pub fn child_by_field_name(&self, name: &str) -> (r: Option<usize>)
        ensures
            match r {
                Some(i) => field_place(self@.children, name@, 0) == Some(i as nat) && i
                    < self.children@.len(),
                None => field_place(self@.children, name@, 0) is None,
            },
    {
        proof {
            lemma_node_view(*self);
        }
        let mut i: usize = 0;
        while i < self.children.len()
            invariant
                i <= self.children.len(),
                self@.children.len() == self.children@.len(),
                forall|j: int|
                    0 <= j < self.children@.len() ==> (#[trigger] self@.children[j])
                        == self.children@[j]@,
                field_place(self@.children, name@, 0) == field_place(
                    self@.children,
                    name@,
                    i as nat,
                ),
            decreases self.children.len() - i,
        {
            if same_text(self.children[i].field.as_str(), name) {
                return Some(i);
            }
            i += 1;
        }
        None
    }
}

} // verus!

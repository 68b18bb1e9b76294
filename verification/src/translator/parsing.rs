use crate::translator::reading::{get_program, program_of};
use crate::translator::syntax::{Program, ProgramView};
use crate::translator::translation::TranslateError;
use crate::translator::tree::{lemma_node_view, nodes_view, SyntaxNode, SyntaxNodeView};
use vstd::prelude::*;

verus! {

/// A node of a syntax tree that is written down as a list: the nodes of
/// the tree stand in the list in the order of the text, each before its
/// children, and each with its depth in the tree.
#[derive(Debug)]
pub struct FlatNode {
    pub depth: usize,
    pub kind: String,
    pub text: String,
    pub field: String,
    pub named: bool,
}

/// What a node of such a list is to the contracts.
pub struct FlatNodeView {
    pub depth: usize,
    pub kind: Seq<char>,
    pub text: Seq<char>,
    pub field: Seq<char>,
    pub named: bool,
}

impl View for FlatNode {
    type V = FlatNodeView;

    open spec fn view(&self) -> FlatNodeView {
        FlatNodeView {
            depth: self.depth,
            kind: self.kind@,
            text: self.text@,
            field: self.field@,
            named: self.named,
        }
    }
}

/// The views of a list of nodes.
pub open spec fn flat_view(l: Seq<FlatNode>) -> Seq<FlatNodeView> {
    l.map_values(|n: FlatNode| n@)
}

/// The tree whose root is the node `from` of the list, and the place behind
/// its last node: its children are the trees that follow it one level
/// deeper.
pub open spec fn subtree(nodes: Seq<FlatNodeView>, from: nat) -> (SyntaxNodeView, nat)
    decreases nodes.len() - from, 0nat,
{
    let (children, end) = if from < nodes.len() {
        forest(nodes, from + 1, (nodes[from as int].depth + 1) as nat)
    } else {
        (Seq::empty(), from)
    };
    (
        SyntaxNodeView {
            kind: nodes[from as int].kind,
            text: nodes[from as int].text,
            field: nodes[from as int].field,
            named: nodes[from as int].named,
            children,
        },
        end,
    )
}

/// The trees of the depth `depth` that follow each other from the place
/// `from` on, and the place behind the last of them.
pub open spec fn forest(nodes: Seq<FlatNodeView>, from: nat, depth: nat) -> (
    Seq<SyntaxNodeView>,
    nat,
)
    decreases nodes.len() - from, 1nat,
{
    if from < nodes.len() && nodes[from as int].depth == depth {
        let (first, next) = subtree(nodes, from);
        if from < next <= nodes.len() {
            let (rest, end) = forest(nodes, next, depth);
            (seq![first] + rest, end)
        } else {
            (Seq::empty(), from)
        }
    } else {
        (Seq::empty(), from)
    }
}

/// The tree that a list of nodes stands for: the tree of its first node,
/// which must take in the whole list.
pub open spec fn tree_of(nodes: Seq<FlatNodeView>) -> Option<SyntaxNodeView> {
    if nodes.len() > 0 && subtree(nodes, 0).1 == nodes.len() {
        Some(subtree(nodes, 0).0)
    } else {
        None
    }
}

/// The tree whose root is the node `from` of the list, and the place behind
/// its last node; see `subtree`.
pub fn build_subtree(nodes: &Vec<FlatNode>, from: usize) -> (r: (SyntaxNode, usize))
    requires
        from < nodes@.len(),
    ensures
        r.0@ == subtree(flat_view(nodes@), from as nat).0,
        r.1 == subtree(flat_view(nodes@), from as nat).1,
        from < r.1 <= nodes@.len(),
    decreases nodes@.len() - from,
{
    let ghost list = flat_view(nodes@);
    let ghost below = (nodes@[from as int].depth + 1) as nat;
    let mut children: Vec<SyntaxNode> = Vec::new();
    let len = nodes.len();
    let mut at: usize = from + 1;
    assert(nodes_view(children@) =~= Seq::<SyntaxNodeView>::empty());
    assert(nodes_view(children@) + forest(list, at as nat, below).0 =~= forest(
        list,
        at as nat,
        below,
    ).0);
    while at < len && nodes[at].depth > 0 && nodes[at].depth - 1 == nodes[from].depth
        invariant
            from < at <= nodes@.len(),
            len == nodes@.len(),
            list == flat_view(nodes@),
            below == (nodes@[from as int].depth + 1) as nat,
            forest(list, (from + 1) as nat, below).0 == nodes_view(children@) + forest(
                list,
                at as nat,
                below,
            ).0,
            forest(list, (from + 1) as nat, below).1 == forest(list, at as nat, below).1,
        decreases nodes@.len() - at,
    {
        let ghost before = children@;
        let (child, next) = build_subtree(nodes, at);
        children.push(child);
        proof {
            let rest = forest(list, next as nat, below).0;
            assert(forest(list, at as nat, below).0 == seq![child@] + rest);
            assert(nodes_view(children@) =~= nodes_view(before).push(child@));
            assert(nodes_view(before) + (seq![child@] + rest) =~= nodes_view(children@) + rest);
        }
        at = next;
    }
    proof {
        assert(forest(list, at as nat, below).0 =~= Seq::<SyntaxNodeView>::empty());
        assert(nodes_view(children@) + Seq::<SyntaxNodeView>::empty() =~= nodes_view(children@));
    }
    let root = SyntaxNode {
        kind: nodes[from].kind.clone(),
        text: nodes[from].text.clone(),
        field: nodes[from].field.clone(),
        named: nodes[from].named,
        children,
    };
    proof {
        lemma_node_view(root);
    }
    (root, at)
}

/// The tree that a list of nodes stands for; see `tree_of`.
pub fn build_tree(nodes: &Vec<FlatNode>) -> (r: Option<SyntaxNode>)
    ensures
        match tree_of(flat_view(nodes@)) {
            Some(root) => r is Some && r->Some_0@ == root,
            None => r is None,
        },
{
    if nodes.len() == 0 {
        return None;
    }
    let (root, end) = build_subtree(nodes, 0);
    if end == nodes.len() {
        Some(root)
    } else {
        None
    }
}

/// The program that a list of nodes stands for: that of the tree of the
/// list.
pub open spec fn program_of_nodes(nodes: Seq<FlatNodeView>) -> Result<ProgramView, TranslateError> {
    match tree_of(nodes) {
        None => Err(TranslateError::Malformed),
        Some(root) => program_of(root),
    }
}

/// The program that a list of nodes stands for; see `program_of_nodes`.
pub fn program_from_nodes(nodes: &Vec<FlatNode>) -> (r: Result<Program, TranslateError>)
    ensures
        match program_of_nodes(flat_view(nodes@)) {
            Ok(program) => r is Ok && r->Ok_0@ == program,
            Err(e) => r is Err && r->Err_0 == e,
        },
{
    match build_tree(nodes) {
        Some(root) => get_program(&root),
        None => Err(TranslateError::Malformed),
    }
}

/// The nodes of the syntax tree of a text, each before its children, if
/// the text can be parsed at all.
pub uninterp spec fn syntax_of(text: Seq<char>) -> Option<Seq<FlatNodeView>>;

/// Parses a text with `tree_sitter::Parser::parse`, after
/// `tree_sitter::Parser::set_language` with `tree_sitter_vinx::LANGUAGE`, and
/// writes the tree down as a list: for each number below
/// `tree_sitter::Node::descendant_count` of the root, the node that
/// `tree_sitter::TreeCursor::goto_descendant` reaches, with its depth
/// (`TreeCursor::depth`), its kind (`Node::kind`), the text of its
/// `Node::byte_range`, the name of the field that it fills
/// (`TreeCursor::field_name`; empty where it fills none) and whether it is
/// named (`Node::is_named`). There is no list where the language cannot be
/// set or the parser gives no tree. All that is claimed of the list is that
/// it depends on the text alone.
#[verifier::external_body]
fn parse_nodes(source: &str) -> (r: Option<Vec<FlatNode>>)
    ensures
        match r {
            Some(nodes) => syntax_of(source@) == Some(flat_view(nodes@)),
            None => syntax_of(source@) is None,
        },
{
    let mut parser = tree_sitter::Parser::new();
    parser.set_language(&tree_sitter_vinx::LANGUAGE.into()).ok()?;
    let tree = parser.parse(source, None)?;
    let (mut cursor, mut nodes) = (tree.walk(), Vec::new());
    for index in 0..tree.root_node().descendant_count() {
        cursor.goto_descendant(index);
        let (node, depth) = (cursor.node(), cursor.depth() as usize);
        let field = cursor.field_name().unwrap_or_default().to_string();
        let text = source.get(node.byte_range()).unwrap_or_default().to_string();
        let (kind, named) = (node.kind().to_string(), node.is_named());
        nodes.push(FlatNode { depth, kind, text, field, named });
    }
    Some(nodes)
}

/// The program that a text stands for: that of the nodes of its syntax
/// tree. A text that cannot be parsed is an error.
pub fn parse_program(text: &str) -> (r: Result<Program, TranslateError>)
    ensures
        match syntax_of(text@) {
            None => r is Err && r->Err_0 == TranslateError::Unparsable,
            Some(nodes) => match program_of_nodes(nodes) {
                Ok(program) => r is Ok && r->Ok_0@ == program,
                Err(e) => r is Err && r->Err_0 == e,
            },
        },
{
    match parse_nodes(text) {
        None => Err(TranslateError::Unparsable),
        Some(nodes) => program_from_nodes(&nodes),
    }
}

} // verus!

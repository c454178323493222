//! Syntax trees as the parser hands them out: what a tree holds, as plain
//! values, and what the parser library's cursor does on it.

use tree_sitter::{Node, Tree, TreeCursor};
use vstd::prelude::*;

verus! {

/// A node of a syntax tree with all that lies under it, as plain values:
/// what a cursor and a node handle show of it.
pub struct SyntaxNode {
    /// The node's type, as the grammar names it.
    pub kind: Seq<char>,
    /// The byte offset at which the node starts.
    pub start_byte: usize,
    /// The byte offset at which the node ends.
    pub end_byte: usize,
    /// For each field that the node has, the byte span of the first child in
    /// that field.
    pub fields: Map<Seq<char>, (usize, usize)>,
    /// The node as an S-expression.
    pub sexp: Seq<char>,
    /// The children that a cursor steps through, first to last.
    pub children: Seq<SyntaxNode>,
}

/// The nodes of the tree under `node`, each before its children, and the
/// children first to last.
pub open spec fn preorder(node: SyntaxNode) -> Seq<SyntaxNode>
    decreases node, 1int,
{
    seq![node] + preorder_all(node.children)
}

/// The nodes of the trees under `nodes`, tree after tree, each in pre-order.
pub open spec fn preorder_all(nodes: Seq<SyntaxNode>) -> Seq<SyntaxNode>
    decreases nodes, 0int,
{
    if nodes.len() == 0 {
        Seq::empty()
    } else {
        preorder_all(nodes.drop_last()) + preorder(nodes.last())
    }
}

/// The node that `path` leads to from `root`: each entry of the path is the
/// index of a child.
pub open spec fn node_at(root: SyntaxNode, path: Seq<int>) -> SyntaxNode
    decreases path.len(),
{
    if path.len() == 0 {
        root
    } else {
        node_at(root, path.drop_last()).children[path.last()]
    }
}

/// Each entry of `path` is the index of a child that exists.
pub open spec fn valid_path(root: SyntaxNode, path: Seq<int>) -> bool
    decreases path.len(),
{
    path.len() > 0 ==> {
        &&& valid_path(root, path.drop_last())
        &&& 0 <= path.last() < node_at(root, path.drop_last()).children.len()
    }
}

/// The pre-order of a list of trees holds the pre-order of each of them.
proof fn lemma_preorder_all_holds_each(nodes: Seq<SyntaxNode>, k: int, node: SyntaxNode)
    requires
        0 <= k < nodes.len(),
        preorder(nodes[k]).contains(node),
    ensures
        preorder_all(nodes).contains(node),
    decreases nodes.len(),
{
    let earlier = preorder_all(nodes.drop_last());
    let last = preorder(nodes.last());
    if k == nodes.len() - 1 {
        let i = choose|i: int| 0 <= i < last.len() && last[i] == node;
        assert((earlier + last)[earlier.len() + i] == node);
    } else {
        lemma_preorder_all_holds_each(nodes.drop_last(), k, node);
        let i = choose|i: int| 0 <= i < earlier.len() && earlier[i] == node;
        assert((earlier + last)[i] == node);
    }
}

/// The pre-order of a tree holds the pre-order of the tree under each of
/// its nodes.
proof fn lemma_preorder_holds_subtree(root: SyntaxNode, path: Seq<int>, node: SyntaxNode)
    requires
        valid_path(root, path),
        preorder(node_at(root, path)).contains(node),
    ensures
        preorder(root).contains(node),
    decreases path.len(),
{
    if path.len() > 0 {
        let parent = node_at(root, path.drop_last());
        let below = preorder_all(parent.children);
        lemma_preorder_all_holds_each(parent.children, path.last(), node);
        let i = choose|i: int| 0 <= i < below.len() && below[i] == node;
        assert(preorder(parent)[i + 1] == node);
        lemma_preorder_holds_subtree(root, path.drop_last(), node);
    }
}

/// No node is left out: the pre-order of a tree holds every node that a
/// path leads to.
pub proof fn lemma_preorder_holds_every_node(root: SyntaxNode, path: Seq<int>)
    requires
        valid_path(root, path),
    ensures
        preorder(root).contains(node_at(root, path)),
{
    let node = node_at(root, path);
    assert(preorder(node)[0] == node);
    lemma_preorder_holds_subtree(root, path, node);
}

/// `tree_sitter::Tree`, a parsed syntax tree. Nothing is known of a value
/// but what `tree_root` says of it.
#[verifier::external_type_specification]
#[verifier::external_body]
pub struct ExTree(tree_sitter::Tree);

/// `tree_sitter::TreeCursor`, a position in a syntax tree. Nothing is known
/// of a value but what `cursor_tree` and `cursor_path` say of it.
#[verifier::external_type_specification]
#[verifier::external_body]
pub struct ExTreeCursor<'cursor>(tree_sitter::TreeCursor<'cursor>);

/// `tree_sitter::Node`, a handle on one node of a syntax tree. Nothing is
/// known of a value but what `node_model` says of it.
#[verifier::external_type_specification]
#[verifier::external_body]
pub struct ExNode<'tree>(tree_sitter::Node<'tree>);

/// The syntax tree that the Rust grammar gives for `source`, or `None` where
/// the parser builds no tree.
pub uninterp spec fn rust_syntax_tree(source: Seq<char>) -> Option<SyntaxNode>;

/// The root of a parsed tree, with all that lies under it.
pub uninterp spec fn tree_root(tree: &Tree) -> SyntaxNode;

/// The node that a cursor was made on, with all that lies under it. The
/// cursor does not leave this tree.
pub uninterp spec fn cursor_tree(cursor: &TreeCursor) -> SyntaxNode;

/// The path from the root of `cursor_tree` to the node that a cursor stands
/// on: child index after child index.
pub uninterp spec fn cursor_path(cursor: &TreeCursor) -> Seq<int>;

/// The node that a node handle refers to, with all that lies under it.
pub uninterp spec fn node_model(node: &Node) -> SyntaxNode;

/// The cursor stands on a node of its tree.
pub open spec fn cursor_ok(cursor: &TreeCursor) -> bool {
    valid_path(cursor_tree(cursor), cursor_path(cursor))
}

/// The node that the cursor stands on.
pub open spec fn current_node(cursor: &TreeCursor) -> SyntaxNode {
    node_at(cursor_tree(cursor), cursor_path(cursor))
}

/// The children of the parent of the cursor's node: the node and its
/// siblings, first to last.
pub open spec fn siblings(cursor: &TreeCursor) -> Seq<SyntaxNode> {
    node_at(cursor_tree(cursor), cursor_path(cursor).drop_last()).children
}

/// `tree_sitter::Parser::parse` on a new parser (`Parser::new`) that was
/// given the Rust grammar (`Parser::set_language` with
/// `tree_sitter_rust::language`), without an old tree. The parser has no
/// timeout and no cancellation flag, so whether there is a tree, and which,
/// depends on the text alone: the result is `rust_syntax_tree` of the text.
/// Where the grammar is refused there is no tree.
#[verifier::external_body]
pub(crate) fn parse_rust(source: &str) -> (tree: Option<Tree>)
    ensures
        match tree {
            Some(t) => rust_syntax_tree(source@) == Some(tree_root(&t)),
            None => rust_syntax_tree(source@) is None,
        },
{
    let mut parser = tree_sitter::Parser::new();
    if parser.set_language(&tree_sitter_rust::language()).is_err() {
        return None;
    }
    parser.parse(source, None)
}

/// `Tree::walk`: a new cursor, made on the root of the tree and standing on
/// it.
pub assume_specification[ tree_sitter::Tree::walk ](tree: &Tree) -> (cursor: TreeCursor<'_>)
    ensures
        cursor_tree(&cursor) == tree_root(tree),
        cursor_path(&cursor) == Seq::<int>::empty(),
;

/// `TreeCursor::goto_first_child`: moves to the first child of the cursor's
/// node and returns `true`, or stays and returns `false` where the node has
/// no children.
pub assume_specification<'cursor>[ tree_sitter::TreeCursor::<'cursor>::goto_first_child ](
    cursor: &mut TreeCursor<'cursor>,
) -> (moved: bool)
    ensures
        cursor_tree(final(cursor)) == cursor_tree(old(cursor)),
        moved == (current_node(old(cursor)).children.len() > 0),
        cursor_path(final(cursor)) == if moved {
            cursor_path(old(cursor)).push(0)
        } else {
            cursor_path(old(cursor))
        },
;

/// `TreeCursor::goto_next_sibling`: moves to the next child of the same
/// parent and returns `true`, or stays and returns `false` where there is
/// none; the node that the cursor was made on has no sibling.
pub assume_specification<'cursor>[ tree_sitter::TreeCursor::<'cursor>::goto_next_sibling ](
    cursor: &mut TreeCursor<'cursor>,
) -> (moved: bool)
    ensures
        cursor_tree(final(cursor)) == cursor_tree(old(cursor)),
        moved == (cursor_path(old(cursor)).len() > 0 && cursor_path(old(cursor)).last() + 1
            < siblings(old(cursor)).len()),
        cursor_path(final(cursor)) == if moved {
            cursor_path(old(cursor)).drop_last().push(cursor_path(old(cursor)).last() + 1)
        } else {
            cursor_path(old(cursor))
        },
;

/// `TreeCursor::goto_parent`: moves to the parent and returns `true`, or
/// stays and returns `false` on the node that the cursor was made on.
pub assume_specification<'cursor>[ tree_sitter::TreeCursor::<'cursor>::goto_parent ](
    cursor: &mut TreeCursor<'cursor>,
) -> (moved: bool)
    ensures
        cursor_tree(final(cursor)) == cursor_tree(old(cursor)),
        moved == (cursor_path(old(cursor)).len() > 0),
        cursor_path(final(cursor)) == if moved {
            cursor_path(old(cursor)).drop_last()
        } else {
            cursor_path(old(cursor))
        },
;

/// `TreeCursor::node`: the node that the cursor stands on.
pub assume_specification<'cursor>[ tree_sitter::TreeCursor::<'cursor>::node ](
    cursor: &TreeCursor<'cursor>,
) -> (node: Node<'cursor>)
    ensures
        node_model(&node) == current_node(cursor),
;

/// `Node::kind`: the node's type, as the grammar names it.
pub assume_specification<'tree>[ tree_sitter::Node::<'tree>::kind ](
    node: &Node<'tree>,
) -> (kind: &'static str)
    ensures
        kind@ == node_model(node).kind,
;

/// `Node::start_byte`: the byte offset where the node starts.
pub assume_specification<'tree>[ tree_sitter::Node::<'tree>::start_byte ](
    node: &Node<'tree>,
) -> (offset: usize)
    ensures
        offset == node_model(node).start_byte,
;

/// `Node::end_byte`: the byte offset where the node ends.
pub assume_specification<'tree>[ tree_sitter::Node::<'tree>::end_byte ](
    node: &Node<'tree>,
) -> (offset: usize)
    ensures
        offset == node_model(node).end_byte,
;

/// `Node::to_sexp`: the node as an S-expression.
pub assume_specification<'tree>[ tree_sitter::Node::<'tree>::to_sexp ](
    node: &Node<'tree>,
) -> (sexp: String)
    ensures
        sexp@ == node_model(node).sexp,
;

/// `Node::child_by_field_name`, then `Node::start_byte` and `Node::end_byte`
/// of the child: the span of the first child in the field of that name, or
/// `None` where the node has no such field.
#[verifier::external_body]
pub(crate) fn field_span(node: &Node, field: &str) -> (span: Option<(usize, usize)>)
    ensures
        span == node_model(node).fields.get(field@),
{
    match node.child_by_field_name(field) {
        Some(child) => Some((child.start_byte(), child.end_byte())),
        None => None,
    }
}

} // verus!

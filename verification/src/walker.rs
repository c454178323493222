//! The walk over a syntax tree: every node once, a node before its children,
//! the children first to last. What is a target is the matcher's business.

use crate::syntax::{
    current_node, cursor_ok, cursor_path, cursor_tree, node_at, preorder, preorder_all,
    siblings, valid_path, SyntaxNode,
};
use tree_sitter::TreeCursor;
use vstd::prelude::*;

verus! {

/// A node matcher, with the list of targets that it fills.
pub trait NodeMatcher {
    /// One recorded target, as plain values.
    type Record;

    /// The targets recorded so far, in the order in which they were found.
    spec fn records(&self) -> Seq<Self::Record>;

    /// What the matcher records of `node`: `None` where the node is no target
    /// or the span filter drops it.
    spec fn selects(source: Seq<char>, node: SyntaxNode) -> Option<Self::Record>;

    /// Looks at the cursor's node and records it where it is a target. The
    /// cursor is left as it was.
    fn visit(&mut self, source: &str, cursor: &mut TreeCursor)
        ensures
            *final(cursor) == *old(cursor),
            final(self).records() == old(self).records() + found(
                Self::selects(source@, current_node(old(cursor))),
            ),
    ;
}

/// No record or one, as a sequence.
pub open spec fn found<R>(record: Option<R>) -> Seq<R> {
    match record {
        Some(r) => seq![r],
        None => Seq::empty(),
    }
}

/// What a matcher records of `nodes`, visited first to last.
pub open spec fn collect<M: NodeMatcher>(source: Seq<char>, nodes: Seq<SyntaxNode>) -> Seq<
    M::Record,
>
    decreases nodes.len(),
{
    if nodes.len() == 0 {
        Seq::empty()
    } else {
        collect::<M>(source, nodes.drop_last()) + found(M::selects(source, nodes.last()))
    }
}

/// Visiting one list of nodes after another records what each list gives,
/// in that order.
pub proof fn lemma_collect_concat<M: NodeMatcher>(
    source: Seq<char>,
    a: Seq<SyntaxNode>,
    b: Seq<SyntaxNode>,
)
    ensures
        collect::<M>(source, a + b) == collect::<M>(source, a) + collect::<M>(source, b),
    decreases b.len(),
{
    if b.len() == 0 {
        assert(a + b =~= a);
    } else {
        assert((a + b).drop_last() =~= a + b.drop_last());
        lemma_collect_concat::<M>(source, a, b.drop_last());
    }
}

/// A single node gives its own record, if it has one.
pub proof fn lemma_collect_one<M: NodeMatcher>(source: Seq<char>, node: SyntaxNode)
    ensures
        collect::<M>(source, seq![node]) == found(M::selects(source, node)),
{
    let none = Seq::<SyntaxNode>::empty();
    assert(seq![node].drop_last() =~= none);
    assert(collect::<M>(source, none) =~= Seq::<M::Record>::empty());
}

/// A node that the matcher drops leaves no trace: with it among the nodes,
/// the records are those of the nodes before it and after it.
pub proof fn lemma_dropped_node_leaves_no_trace<M: NodeMatcher>(
    source: Seq<char>,
    before: Seq<SyntaxNode>,
    node: SyntaxNode,
    after: Seq<SyntaxNode>,
)
    requires
        M::selects(source, node) is None,
    ensures
        collect::<M>(source, before + seq![node] + after) == collect::<M>(source, before + after),
{
    lemma_collect_concat::<M>(source, before + seq![node], after);
    lemma_collect_concat::<M>(source, before, seq![node]);
    lemma_collect_one::<M>(source, node);
    lemma_collect_concat::<M>(source, before, after);
}

/// The pre-order of the first `k + 1` trees is that of the first `k`, then
/// the root of the next, then the pre-order of its children.
proof fn lemma_collect_next_sibling<M: NodeMatcher>(
    source: Seq<char>,
    siblings: Seq<SyntaxNode>,
    first: int,
    k: int,
)
    requires
        0 <= first <= k < siblings.len(),
    ensures
        collect::<M>(source, preorder_all(siblings.subrange(first, k + 1))) == collect::<M>(
            source,
            preorder_all(siblings.subrange(first, k)),
        ) + found(M::selects(source, siblings[k])) + collect::<M>(
            source,
            preorder_all(siblings[k].children),
        ),
{
    let done = preorder_all(siblings.subrange(first, k));
    let node = siblings[k];
    assert(siblings.subrange(first, k + 1).drop_last() =~= siblings.subrange(first, k));
    lemma_collect_concat::<M>(source, done, preorder(node));
    lemma_collect_concat::<M>(source, seq![node], preorder_all(node.children));
    lemma_collect_one::<M>(source, node);
}

/// Visits what lies below the cursor's node, in pre-order, and comes back to
/// the node.
fn visit_vertical<M: NodeMatcher>(source: &str, cursor: &mut TreeCursor, acc: &mut M)
    requires
        cursor_ok(old(cursor)),
    ensures
        cursor_tree(final(cursor)) == cursor_tree(old(cursor)),
        cursor_path(final(cursor)) == cursor_path(old(cursor)),
        final(acc).records() == old(acc).records() + collect::<M>(
            source@,
            preorder_all(current_node(old(cursor)).children),
        ),
    decreases current_node(old(cursor)), 1int,
{
    let ghost path = cursor_path(cursor);
    let ghost children = current_node(cursor).children;
    if cursor.goto_first_child() {
        assert(path.push(0).drop_last() =~= path);
        visit_horizontal(source, cursor, acc);
        cursor.goto_parent();
        assert(children.subrange(0, children.len() as int) =~= children);
    }
}

/// Visits the cursor's node and the siblings after it, each with what lies
/// below it, and stops on the last sibling.
fn visit_horizontal<M: NodeMatcher>(source: &str, cursor: &mut TreeCursor, acc: &mut M)
    requires
        cursor_ok(old(cursor)),
        cursor_path(old(cursor)).len() > 0,
    ensures
        cursor_tree(final(cursor)) == cursor_tree(old(cursor)),
        cursor_path(final(cursor)) == cursor_path(old(cursor)).drop_last().push(
            siblings(old(cursor)).len() - 1,
        ),
        final(acc).records() == old(acc).records() + collect::<M>(
            source@,
            preorder_all(
                siblings(old(cursor)).subrange(
                    cursor_path(old(cursor)).last(),
                    siblings(old(cursor)).len() as int,
                ),
            ),
        ),
    decreases node_at(cursor_tree(old(cursor)), cursor_path(old(cursor)).drop_last()), 0int,
{
    let ghost tree = cursor_tree(cursor);
    let ghost parent_path = cursor_path(cursor).drop_last();
    let ghost parent = node_at(tree, parent_path);
    let ghost siblings = parent.children;
    let ghost first = cursor_path(cursor).last();
    let ghost before = acc.records();
    loop
        invariant_except_break
            cursor_tree(cursor) == tree,
            cursor_path(cursor).len() > 0,
            cursor_path(cursor).drop_last() == parent_path,
            first <= cursor_path(cursor).last() < siblings.len(),
            acc.records() == before + collect::<M>(
                source@,
                preorder_all(siblings.subrange(first, cursor_path(cursor).last())),
            ),
        invariant
            cursor_path(old(cursor)).len() > 0,
            tree == cursor_tree(old(cursor)),
            parent_path == cursor_path(old(cursor)).drop_last(),
            valid_path(tree, parent_path),
            parent == node_at(tree, parent_path),
            siblings == parent.children,
            0 <= first,
        ensures
            cursor_tree(cursor) == tree,
            cursor_path(cursor) == parent_path.push(siblings.len() - 1),
            acc.records() == before + collect::<M>(
                source@,
                preorder_all(siblings.subrange(first, siblings.len() as int)),
            ),
        decreases siblings.len() - cursor_path(cursor).last(),
    {
        let ghost k = cursor_path(cursor).last();
        proof {
            lemma_collect_next_sibling::<M>(source@, siblings, first, k);
        }
        acc.visit(source, cursor);
        visit_vertical(source, cursor, acc);
        if !cursor.goto_next_sibling() {
            break ;
        }
    }
}

/// Visits the cursor's node and every node below it, in pre-order: each node
/// once, a node before its children, the children first to last. The cursor
/// ends where it started.
pub fn traverse<M: NodeMatcher>(source: &str, cursor: &mut TreeCursor, acc: &mut M)
    requires
        cursor_ok(old(cursor)),
    ensures
        cursor_tree(final(cursor)) == cursor_tree(old(cursor)),
        cursor_path(final(cursor)) == cursor_path(old(cursor)),
        final(acc).records() == old(acc).records() + collect::<M>(
            source@,
            preorder(current_node(old(cursor))),
        ),
{
    let ghost node = current_node(cursor);
    proof {
        lemma_collect_concat::<M>(source@, seq![node], preorder_all(node.children));
        lemma_collect_one::<M>(source@, node);
    }
    acc.visit(source, cursor);
    visit_vertical(source, cursor, acc);
}

} // verus!

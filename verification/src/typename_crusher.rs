//! The identifier strategy: every type identifier is a target, and each has
//! the same four replacements.

use crate::syntax::{
    current_node, parse_rust, preorder, rust_syntax_tree, tree_root, SyntaxNode,
};
use crate::text::{
    is_safe_span, is_span, same_text, span_is_safe, splice, spliced, text_after, text_before,
};
use crate::walker::{collect, found, traverse, NodeMatcher};
use tree_sitter::{Tree, TreeCursor};
use vstd::prelude::*;

verus! {

/// A recorded type identifier: start byte, end byte, and the node as an
/// S-expression.
pub type TypePosInfo = (usize, usize, String);

/// A recorded type identifier as plain values.
pub type TypeRecord = (usize, usize, Seq<char>);

/// Whether a node is a type identifier.
pub open spec fn is_type_identifier(node: SyntaxNode) -> bool {
    node.kind == "type_identifier"@
}

/// The replacements of a type identifier, in the order of their variants:
/// nothing, an integer type, the string slice type, a marker trait.
pub open spec fn new_exprs() -> Seq<Seq<char>> {
    seq![""@, "i32"@, "str"@, "Copy"@]
}

/// What the identifier strategy records of `node`: type identifiers whose
/// span passes the filter.
pub open spec fn type_target(source: Seq<char>, node: SyntaxNode) -> Option<TypeRecord> {
    if is_type_identifier(node) && is_safe_span(
        source,
        node.start_byte as int,
        node.end_byte as int,
    ) {
        Some((node.start_byte, node.end_byte, node.sexp))
    } else {
        None
    }
}

/// The targets of the tree under `root`, in the order in which the walk
/// finds them.
pub open spec fn type_targets(source: Seq<char>, root: SyntaxNode) -> Seq<TypeRecord> {
    collect::<Vec<TypePosInfo>>(source, preorder(root))
}

/// Four variants for each target, target after target, and for each target
/// in the order of the replacements.
pub open spec fn type_variants(source: Seq<char>, targets: Seq<TypeRecord>) -> Seq<Seq<char>> {
    Seq::new(
        4 * targets.len(),
        |k: int|
            spliced(source, targets[k / 4].0 as int, targets[k / 4].1 as int, new_exprs()[k % 4]),
    )
}

/// Records the node under the cursor where it is a type identifier that the
/// span filter lets through. The cursor is left as it was.
pub fn find_type(source_code: &str, cursor: &mut TreeCursor, acc: &mut Vec<TypePosInfo>)
    ensures
        *final(cursor) == *old(cursor),
        final(acc).deep_view() == old(acc).deep_view() + found(
            type_target(source_code@, current_node(old(cursor))),
        ),
{
    let node = cursor.node();
    if same_text(node.kind(), "type_identifier") {
        let start_byte: usize = node.start_byte();
        let end_byte: usize = node.end_byte();
        let sexp = node.to_sexp();
        if !span_is_safe(source_code, start_byte, end_byte) {
            return ;
        }
        acc.push((start_byte, end_byte, sexp));
    }
}

impl NodeMatcher for Vec<TypePosInfo> {
    type Record = TypeRecord;

    open spec fn records(&self) -> Seq<TypeRecord> {
        self.deep_view()
    }

    open spec fn selects(source: Seq<char>, node: SyntaxNode) -> Option<TypeRecord> {
        type_target(source, node)
    }

    fn visit(&mut self, source: &str, cursor: &mut TreeCursor) {
        find_type(source, cursor, self)
    }
}

/// The replacement with index `j`.
fn new_expr(j: usize) -> (text: &'static str)
    requires
        j < 4,
    ensures
        text@ == new_exprs()[j as int],
{
    if j == 0 {
        ""
    } else if j == 1 {
        "i32"
    } else if j == 2 {
        "str"
    } else {
        "Copy"
    }
}

/// Four copies of the source for each type identifier, each with the
/// identifier replaced by one of the replacements.
pub fn modify_types(source_code: &str, structs: &Vec<TypePosInfo>) -> (modified_versions: Vec<
    String,
>)
    requires
        forall|i: int|
            0 <= i < structs.len() ==> is_span(
                source_code@,
                (#[trigger] structs[i]).0 as int,
                structs[i].1 as int,
            ),
    ensures
        modified_versions.len() == 4 * structs.len(),
        modified_versions.deep_view() == type_variants(source_code@, structs.deep_view()),
{
    let mut modified_versions: Vec<String> = Vec::new();
    let mut i: usize = 0;
    while i < structs.len()
        invariant
            i <= structs.len(),
            forall|k: int|
                0 <= k < structs.len() ==> is_span(
                    source_code@,
                    (#[trigger] structs[k]).0 as int,
                    structs[k].1 as int,
                ),
            modified_versions.len() == 4 * i,
            forall|k: int|
                0 <= k < 4 * i ==> (#[trigger] modified_versions[k])@ == type_variants(
                    source_code@,
                    structs.deep_view(),
                )[k],
        decreases structs.len() - i,
    {
        let info = &structs[i];
        let mut j: usize = 0;
        while j < 4
            invariant
                j <= 4,
                i < structs.len(),
                info == &structs[i as int],
                is_span(source_code@, info.0 as int, info.1 as int),
                modified_versions.len() == 4 * i + j,
                forall|k: int|
                    0 <= k < 4 * i + j ==> (#[trigger] modified_versions[k])@
                        == type_variants(source_code@, structs.deep_view())[k],
            decreases 4 - j,
        {
            let version = splice(source_code, info.0, info.1, new_expr(j));
            modified_versions.push(version);
            j += 1;
        }
        i += 1;
    }
    modified_versions
}

/// Every target that the identifier strategy records passes the span
/// filter: its end byte, less one, indexes a character of the source, and its
/// byte range splits no character.
pub proof fn lemma_type_targets_are_safe(source: Seq<char>, nodes: Seq<SyntaxNode>)
    ensures
        forall|i: int|
            0 <= i < collect::<Vec<TypePosInfo>>(source, nodes).len() ==> is_safe_span(
                source,
                (#[trigger] collect::<Vec<TypePosInfo>>(source, nodes)[i]).0 as int,
                collect::<Vec<TypePosInfo>>(source, nodes)[i].1 as int,
            ),
    decreases nodes.len(),
{
    if nodes.len() > 0 {
        lemma_type_targets_are_safe(source, nodes.drop_last());
        let earlier = collect::<Vec<TypePosInfo>>(source, nodes.drop_last());
        let all = collect::<Vec<TypePosInfo>>(source, nodes);
        assert forall|i: int| 0 <= i < all.len() implies is_safe_span(
            source,
            (#[trigger] all[i]).0 as int,
            all[i].1 as int,
        ) by {
            if i < earlier.len() {
                assert(all[i] == earlier[i]);
            }
        }
    }
}

/// A node whose end byte, less one, is no index of a character of the source
/// is not recorded, whatever it is.
pub proof fn lemma_late_identifier_is_dropped(source: Seq<char>, node: SyntaxNode)
    requires
        node.end_byte > source.len() || node.end_byte == 0,
    ensures
        type_target(source, node) is None,
{
}

/// Where every type identifier among `nodes` passes the span filter, there
/// are four times as many variants as type identifiers.
pub proof fn lemma_type_count(source: Seq<char>, nodes: Seq<SyntaxNode>)
    requires
        forall|i: int|
            0 <= i < nodes.len() && is_type_identifier(#[trigger] nodes[i]) ==> is_safe_span(
                source,
                nodes[i].start_byte as int,
                nodes[i].end_byte as int,
            ),
    ensures
        type_variants(source, collect::<Vec<TypePosInfo>>(source, nodes)).len() == 4
            * nodes.filter(|node: SyntaxNode| is_type_identifier(node)).len(),
    decreases nodes.len(),
{
    reveal(Seq::filter);
    if nodes.len() > 0 {
        lemma_type_count(source, nodes.drop_last());
    }
}

/// The four variants of one target differ in the replacement alone: each is
/// the text before the target, one of the replacements in their order, and
/// the text after the target.
pub proof fn lemma_group_of_variants(source: Seq<char>, targets: Seq<TypeRecord>, i: int, j: int)
    requires
        0 <= i < targets.len(),
        0 <= j < 4,
    ensures
        4 * i + j < type_variants(source, targets).len(),
        type_variants(source, targets)[4 * i + j] == text_before(source, targets[i].0 as int)
            + new_exprs()[j] + text_after(source, targets[i].1 as int),
{
}

/// Each variant is made from the source and its own target: the variants
/// of a target are the four that the target would have alone.
pub proof fn lemma_type_variant_stands_alone(
    source: Seq<char>,
    targets: Seq<TypeRecord>,
    i: int,
    j: int,
)
    requires
        0 <= i < targets.len(),
        0 <= j < 4,
    ensures
        type_variants(source, targets)[4 * i + j] == type_variants(source, seq![targets[i]])[j],
{
}

/// The variants of a parsed source: four for each type identifier of the
/// tree that the span filter lets through, in the order in which the walk
/// finds them.
pub fn crush_types(source_code: &str, tree: &Tree) -> (sources: Vec<String>)
    ensures
        sources.deep_view() == type_variants(
            source_code@,
            type_targets(source_code@, tree_root(tree)),
        ),
{
    let mut found_types: Vec<TypePosInfo> = Vec::new();
    let mut cursor = tree.walk();
    traverse(source_code, &mut cursor, &mut found_types);
    proof {
        let targets = type_targets(source_code@, tree_root(tree));
        lemma_type_targets_are_safe(source_code@, preorder(tree_root(tree)));
        assert forall|i: int| 0 <= i < found_types.len() implies is_span(
            source_code@,
            (#[trigger] found_types[i]).0 as int,
            found_types[i].1 as int,
        ) by {
            assert(found_types[i].deep_view() == targets[i]);
        }
    }
    modify_types(source_code, &found_types)
}

/// Parses `source_code` as Rust and gives its variants under the identifier
/// strategy, or `None` where the parser builds no tree.
pub fn get_struct_crushed_sources(source_code: &str) -> (sources: Option<Vec<String>>)
    ensures
        match rust_syntax_tree(source_code@) {
            Some(root) => sources is Some && sources->0.deep_view() == type_variants(
                source_code@,
                type_targets(source_code@, root),
            ),
            None => sources is None,
        },
{
    match parse_rust(source_code) {
        Some(tree) => Some(crush_types(source_code, &tree)),
        None => None,
    }
}

} // verus!

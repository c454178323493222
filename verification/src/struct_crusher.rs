//! The declaration strategy: every struct declaration is a target, and its
//! one replacement is a declaration of the same name in another form.

use crate::syntax::{
    current_node, field_span, parse_rust, preorder, rust_syntax_tree, tree_root, SyntaxNode,
};
use crate::text::{
    between, is_boundary, is_safe_span, is_span, prefix, same_text, span_is_safe, span_is_whole,
    splice, spliced, text_before, text_between,
};
use crate::walker::{collect, found, traverse, NodeMatcher};
use tree_sitter::{Tree, TreeCursor};
use vstd::prelude::*;

verus! {

/// The physical form of a struct declaration.
#[derive(Debug, Clone, Copy, PartialEq, Eq, Structural)]
pub enum StructForm {
    /// Ends in a semicolon, with no fields before it.
    Unit,
    /// Ends in a parenthesised field list and a semicolon.
    Tuple,
    /// Ends in a braced field list.
    Struct,
}

impl DeepView for StructForm {
    type V = StructForm;

    open spec fn deep_view(&self) -> StructForm {
        *self
    }
}

/// A recorded declaration: start byte, end byte, form and name.
pub type StructInfo = (usize, usize, StructForm, String);

/// A recorded declaration as plain values.
pub type StructRecord = (usize, usize, StructForm, Seq<char>);

/// Whether a node is a struct declaration.
pub open spec fn is_struct_item(node: SyntaxNode) -> bool {
    node.kind == "struct_item"@
}

/// The form that the text up to a declaration's end shows: a closing brace
/// as last character is a block; else a closing parenthesis before the last
/// character is a tuple; anything else is a unit declaration.
pub open spec fn form_of(before: Seq<char>) -> StructForm {
    if before.len() >= 1 && before[before.len() - 1] == '}' {
        StructForm::Struct
    } else if before.len() >= 2 && before[before.len() - 2] == ')' {
        StructForm::Tuple
    } else {
        StructForm::Unit
    }
}

/// The form of a declaration of `source` that ends at byte `end`. Where
/// `end` is no place to cut the text, no character can be read before it:
/// neither a brace nor a parenthesis is seen, and the form is that of a unit
/// declaration.
pub open spec fn declared_form(source: Seq<char>, end: int) -> StructForm {
    if is_boundary(source, end) {
        form_of(text_before(source, end))
    } else {
        StructForm::Unit
    }
}

/// The name of a declaration whose `name` child, if it has one, has the
/// span `name_span`: the text of that span, or nothing where there is no such
/// child or its span is no span of the source.
pub open spec fn declared_name(source: Seq<char>, name_span: Option<(usize, usize)>) -> Seq<char> {
    match name_span {
        Some((start, end)) => if is_span(source, start as int, end as int) {
            text_between(source, start as int, end as int)
        } else {
            Seq::empty()
        },
        None => Seq::empty(),
    }
}

/// What is recorded of a declaration with the span `[start, end)`: nothing
/// where the span filter drops the span, else the span with the
/// declaration's form and name.
pub open spec fn struct_record(
    source: Seq<char>,
    start: usize,
    end: usize,
    name_span: Option<(usize, usize)>,
) -> Option<StructRecord> {
    if is_safe_span(source, start as int, end as int) {
        Some((start, end, declared_form(source, end as int), declared_name(source, name_span)))
    } else {
        None
    }
}

/// What the declaration strategy records of `node`: nothing unless it is a
/// struct declaration; the name is read off its field `name`.
pub open spec fn struct_target(source: Seq<char>, node: SyntaxNode) -> Option<StructRecord> {
    if is_struct_item(node) {
        struct_record(source, node.start_byte, node.end_byte, node.fields.get("name"@))
    } else {
        None
    }
}

/// The targets of the tree under `root`, in the order in which the walk
/// finds them.
pub open spec fn struct_targets(source: Seq<char>, root: SyntaxNode) -> Seq<StructRecord> {
    collect::<Vec<StructInfo>>(source, preorder(root))
}

/// The text that replaces a declaration: a tuple declaration becomes a unit
/// declaration, any other an empty tuple declaration, under the same name.
pub open spec fn replacement_for(form: StructForm, name: Seq<char>) -> Seq<char> {
    match form {
        StructForm::Tuple => "struct "@ + name + ";"@,
        _ => "struct "@ + name + "();"@,
    }
}

/// One variant for each target, in the order of the targets.
pub open spec fn struct_variants(source: Seq<char>, targets: Seq<StructRecord>) -> Seq<Seq<char>> {
    Seq::new(
        targets.len(),
        |i: int|
            spliced(
                source,
                targets[i].0 as int,
                targets[i].1 as int,
                replacement_for(targets[i].2, targets[i].3),
            ),
    )
}

/// Reads the form of a declaration off the text before its end byte.
pub fn form_before(source_code: &str, end_byte: usize) -> (form: StructForm)
    ensures
        form == declared_form(source_code@, end_byte as int),
{
    if !source_code.is_char_boundary(end_byte) {
        return StructForm::Unit;
    }
    let before = prefix(source_code, end_byte);
    let count: usize = before.unicode_len();
    if count >= 1 && before.get_char(count - 1) == '}' {
        StructForm::Struct
    } else if count >= 2 && before.get_char(count - 2) == ')' {
        StructForm::Tuple
    } else {
        StructForm::Unit
    }
}

/// The form of the declaration under the cursor. The cursor is left as it
/// was.
pub fn determine_struct_form(source_code: &str, cursor: &mut TreeCursor) -> (form: StructForm)
    ensures
        *final(cursor) == *old(cursor),
        form == declared_form(source_code@, current_node(old(cursor)).end_byte as int),
{
    let node = cursor.node();
    form_before(source_code, node.end_byte())
}

/// The name of a declaration: the text of its `name` child, whose span is
/// `name_span`, or nothing.
pub fn name_of(source_code: &str, name_span: Option<(usize, usize)>) -> (name: String)
    ensures
        name@ == declared_name(source_code@, name_span),
{
    match name_span {
        Some((start, end)) => {
            if span_is_whole(source_code, start, end) {
                String::from_str(between(source_code, start, end))
            } else {
                String::new()
            }
        },
        None => String::new(),
    }
}

/// The record of a declaration with the span `[start_byte, end_byte)`, whose
/// `name` child, if it has one, has the span `name_span`.
pub fn record_struct(
    source_code: &str,
    start_byte: usize,
    end_byte: usize,
    name_span: Option<(usize, usize)>,
) -> (info: Option<StructInfo>)
    ensures
        info.deep_view() == struct_record(source_code@, start_byte, end_byte, name_span),
{
    if !span_is_safe(source_code, start_byte, end_byte) {
        return None;
    }
    let struct_name = name_of(source_code, name_span);
    let struct_form = form_before(source_code, end_byte);
    Some((start_byte, end_byte, struct_form, struct_name))
}

/// Records the node under the cursor where it is a struct declaration that
/// the span filter lets through. The cursor is left as it was.
pub fn find_structs(source_code: &str, cursor: &mut TreeCursor, acc: &mut Vec<StructInfo>)
    ensures
        *final(cursor) == *old(cursor),
        final(acc).deep_view() == old(acc).deep_view() + found(
            struct_target(source_code@, current_node(old(cursor))),
        ),
{
    let node = cursor.node();
    if same_text(node.kind(), "struct_item") {
        let name_span = field_span(&node, "name");
        match record_struct(source_code, node.start_byte(), node.end_byte(), name_span) {
            Some(struct_info) => acc.push(struct_info),
            None => {},
        }
    }
}

impl NodeMatcher for Vec<StructInfo> {
    type Record = StructRecord;

    open spec fn records(&self) -> Seq<StructRecord> {
        self.deep_view()
    }

    open spec fn selects(source: Seq<char>, node: SyntaxNode) -> Option<StructRecord> {
        struct_target(source, node)
    }

    fn visit(&mut self, source: &str, cursor: &mut TreeCursor) {
        find_structs(source, cursor, self)
    }
}

/// The text that replaces a declaration of the given form and name.
fn declaration_text(form: &StructForm, name: &str) -> (text: String)
    ensures
        text@ == replacement_for(*form, name@),
{
    let mut text = String::from_str("struct ");
    text.append(name);
    match form {
        StructForm::Tuple => text.append(";"),
        _ => text.append("();"),
    }
    text
}

/// One copy of the source for each declaration, with that declaration
/// replaced.
pub fn modify_structs(source_code: &str, structs: &Vec<StructInfo>) -> (modified_versions: Vec<
    String,
>)
    requires
        forall|i: int|
            0 <= i < structs.len() ==> is_span(
                source_code@,
                (#[trigger] structs[i]).0 as int,
                structs[i].1 as int,
            ),
    ensures
        modified_versions.len() == structs.len(),
        modified_versions.deep_view() == struct_variants(source_code@, structs.deep_view()),
{
    let mut modified_versions: Vec<String> = Vec::new();
    let mut i: usize = 0;
    while i < structs.len()
        invariant
            i <= structs.len(),
            forall|k: int|
                0 <= k < structs.len() ==> is_span(
                    source_code@,
                    (#[trigger] structs[k]).0 as int,
                    structs[k].1 as int,
                ),
            modified_versions.len() == i,
            forall|k: int|
                0 <= k < i ==> (#[trigger] modified_versions[k])@ == struct_variants(
                    source_code@,
                    structs.deep_view(),
                )[k],
        decreases structs.len() - i,
    {
        let info = &structs[i];
        let new_declaration = declaration_text(&info.2, info.3.as_str());
        let version = splice(source_code, info.0, info.1, new_declaration.as_str());
        modified_versions.push(version);
        i += 1;
    }
    modified_versions
}

/// Every target that the declaration strategy records passes the span
/// filter: its end byte, less one, indexes a character of the source, and its
/// byte range splits no character.
pub proof fn lemma_struct_targets_are_safe(source: Seq<char>, nodes: Seq<SyntaxNode>)
    ensures
        forall|i: int|
            0 <= i < collect::<Vec<StructInfo>>(source, nodes).len() ==> is_safe_span(
                source,
                (#[trigger] collect::<Vec<StructInfo>>(source, nodes)[i]).0 as int,
                collect::<Vec<StructInfo>>(source, nodes)[i].1 as int,
            ),
    decreases nodes.len(),
{
    if nodes.len() > 0 {
        lemma_struct_targets_are_safe(source, nodes.drop_last());
        let earlier = collect::<Vec<StructInfo>>(source, nodes.drop_last());
        let all = collect::<Vec<StructInfo>>(source, nodes);
        assert forall|i: int| 0 <= i < all.len() implies is_safe_span(
            source,
            (#[trigger] all[i]).0 as int,
            all[i].1 as int,
        ) by {
            if i < earlier.len() {
                assert(all[i] == earlier[i]);
            }
        }
    }
}

/// A node whose end byte, less one, is no index of a character of the source
/// is not recorded, whatever it is.
pub proof fn lemma_late_declaration_is_dropped(source: Seq<char>, node: SyntaxNode)
    requires
        node.end_byte > source.len() || node.end_byte == 0,
    ensures
        struct_target(source, node) is None,
{
}

/// Where every struct declaration among `nodes` passes the span filter,
/// there are as many variants as declarations.
pub proof fn lemma_struct_count(source: Seq<char>, nodes: Seq<SyntaxNode>)
    requires
        forall|i: int|
            0 <= i < nodes.len() && is_struct_item(#[trigger] nodes[i]) ==> is_safe_span(
                source,
                nodes[i].start_byte as int,
                nodes[i].end_byte as int,
            ),
    ensures
        struct_variants(source, collect::<Vec<StructInfo>>(source, nodes)).len() == nodes.filter(
            |node: SyntaxNode| is_struct_item(node),
        ).len(),
    decreases nodes.len(),
{
    reveal(Seq::filter);
    if nodes.len() > 0 {
        lemma_struct_count(source, nodes.drop_last());
    }
}

/// Each variant is made from the source and its own target: it is the one
/// variant that the target would have alone.
pub proof fn lemma_struct_variant_stands_alone(
    source: Seq<char>,
    targets: Seq<StructRecord>,
    i: int,
)
    requires
        0 <= i < targets.len(),
    ensures
        struct_variants(source, targets)[i] == struct_variants(source, seq![targets[i]])[0],
{
}

/// The variants of a parsed source: one for each struct declaration of the
/// tree that the span filter lets through, in the order in which the walk
/// finds them.
pub fn crush_structs(source_code: &str, tree: &Tree) -> (sources: Vec<String>)
    ensures
        sources.deep_view() == struct_variants(
            source_code@,
            struct_targets(source_code@, tree_root(tree)),
        ),
{
    let mut found_structs: Vec<StructInfo> = Vec::new();
    let mut cursor = tree.walk();
    traverse(source_code, &mut cursor, &mut found_structs);
    proof {
        let targets = struct_targets(source_code@, tree_root(tree));
        lemma_struct_targets_are_safe(source_code@, preorder(tree_root(tree)));
        assert forall|i: int| 0 <= i < found_structs.len() implies is_span(
            source_code@,
            (#[trigger] found_structs[i]).0 as int,
            found_structs[i].1 as int,
        ) by {
            assert(found_structs[i].deep_view() == targets[i]);
        }
    }
    modify_structs(source_code, &found_structs)
}

/// Parses `source_code` as Rust and gives its variants under the
/// declaration strategy, or `None` where the parser builds no tree.
pub fn get_struct_crushed_sources(source_code: &str) -> (sources: Option<Vec<String>>)
    ensures
        match rust_syntax_tree(source_code@) {
            Some(root) => sources is Some && sources->0.deep_view() == struct_variants(
                source_code@,
                struct_targets(source_code@, root),
            ),
            None => sources is None,
        },
{
    match parse_rust(source_code) {
        Some(tree) => Some(crush_structs(source_code, &tree)),
        None => None,
    }
}

} // verus!

use crusher::struct_crusher::StructInfo;
use crusher::typename_crusher::TypePosInfo;
use crusher::walker::traverse;
use tree_sitter::{Node, Parser, Tree};

fn tree_of(source: &str) -> Tree {
    let mut parser = Parser::new();
    parser.set_language(&tree_sitter_rust::language()).unwrap();
    parser.parse(source, None).unwrap()
}

/// The spans of the nodes of one kind, each node before its children and the
/// children first to last, read off the nodes themselves.
fn spans_in_preorder(node: Node, kind: &str, out: &mut Vec<(usize, usize)>) {
    if node.kind() == kind {
        out.push((node.start_byte(), node.end_byte()));
    }
    for i in 0..node.child_count() {
        spans_in_preorder(node.child(i).unwrap(), kind, out);
    }
}

fn ascii_sources() -> Vec<&'static str> {
    vec![
        "",
        "struct A;",
        "struct Outer { a: Inner }\nfn f() { struct Local(u8); }\nstruct Last;",
        "fn f(m: Map<Key, Vec<Item>>, l: Last) -> Option<(A, B)> { if x { y } else { z } }",
        "impl<T: Tr> S<T> { fn g(&self) -> T { self.0.clone() } }\nmod m { use a::b; }",
        "fn broken( { struct ; let x: = ; }",
        "mod a { mod b { mod c { struct Deep(X, Y<Z>); } struct Mid; } } struct Top { t: T }",
    ]
}

#[test]
fn traverse_finds_the_type_identifiers_in_the_order_of_the_tree() {
    for source in ascii_sources() {
        let tree = tree_of(source);
        let mut expected = Vec::new();
        spans_in_preorder(tree.root_node(), "type_identifier", &mut expected);
        let mut cursor = tree.walk();
        let mut acc: Vec<TypePosInfo> = Vec::new();
        traverse(source, &mut cursor, &mut acc);
        let mut found = Vec::new();
        for target in &acc {
            found.push((target.0, target.1));
        }
        // zero-width nodes that the parser makes up at byte 0 are not targets
        expected.retain(|span| span.1 >= 1);
        assert_eq!(found, expected);
        assert_eq!(cursor.node(), tree.root_node());
    }
}

#[test]
fn traverse_finds_the_declarations_in_the_order_of_the_tree() {
    for source in ascii_sources() {
        let tree = tree_of(source);
        let mut expected = Vec::new();
        spans_in_preorder(tree.root_node(), "struct_item", &mut expected);
        let mut cursor = tree.walk();
        let mut acc: Vec<StructInfo> = Vec::new();
        traverse(source, &mut cursor, &mut acc);
        let mut found = Vec::new();
        for target in &acc {
            found.push((target.0, target.1));
        }
        assert_eq!(found, expected);
        assert_eq!(cursor.node(), tree.root_node());
    }
}

#[test]
fn traverse_of_a_deep_tree_finds_each_target_once() {
    let source = "mod a { mod b { mod c { struct Deep(X, Y<Z>); } struct Mid; } } struct Top { t: T }";
    let tree = tree_of(source);
    let mut cursor = tree.walk();
    let mut structs: Vec<StructInfo> = Vec::new();
    traverse(source, &mut cursor, &mut structs);
    let mut names = Vec::new();
    for target in &structs {
        names.push(target.3.as_str());
    }
    assert_eq!(names, vec!["Deep", "Mid", "Top"]);
    let mut types: Vec<TypePosInfo> = Vec::new();
    traverse(source, &mut cursor, &mut types);
    let mut texts = Vec::new();
    for target in &types {
        texts.push(&source[target.0..target.1]);
    }
    assert_eq!(texts, vec!["Deep", "X", "Y", "Z", "Mid", "Top", "T"]);
}

#[test]
fn traverse_appends_to_what_was_found() {
    let source = "struct A;";
    let tree = tree_of(source);
    let mut cursor = tree.walk();
    let mut acc: Vec<TypePosInfo> = vec![(1, 2, "earlier".to_string())];
    traverse(source, &mut cursor, &mut acc);
    assert_eq!(
        acc,
        vec![(1, 2, "earlier".to_string()), (7, 8, "(type_identifier)".to_string())]
    );
}

#[test]
fn traverse_from_a_leaf_looks_at_the_leaf_alone() {
    let source = "type A = B;";
    let tree = tree_of(source);
    let mut cursor = tree.walk();
    assert!(cursor.goto_first_child());
    assert!(cursor.goto_first_child());
    assert!(cursor.goto_next_sibling());
    assert_eq!(cursor.node().kind(), "type_identifier");
    let leaf = cursor.node();
    let mut acc: Vec<TypePosInfo> = Vec::new();
    traverse(source, &mut cursor, &mut acc);
    assert_eq!(acc, vec![(5, 6, "(type_identifier)".to_string())]);
    assert_eq!(cursor.node(), leaf);
}

fn odd_sources() -> Vec<&'static str> {
    vec![
        "struct",
        "struct ;",
        "struct A",
        "struct A(",
        "struct A {",
        "}",
        ");",
        "\u{feff}struct A;",
        "struct \u{1f600};",
        "struct A; /* \u{e9}\u{e9}\u{e9} */ struct B(u8); // \u{1f600}",
        "fn f(x: ) -> { let y: = 0; }",
        "impl for {}",
        "\u{e9}",
        "\n\n\n",
    ]
}

#[test]
fn every_declaration_variant_differs_from_the_source_at_the_target_alone() {
    for source in odd_sources() {
        let tree = tree_of(source);
        let mut cursor = tree.walk();
        let mut acc: Vec<StructInfo> = Vec::new();
        traverse(source, &mut cursor, &mut acc);
        let variants = crusher::struct_crusher::get_struct_crushed_sources(source).unwrap();
        assert_eq!(variants.len(), acc.len());
        for i in 0..acc.len() {
            let (start, end) = (acc[i].0, acc[i].1);
            assert!(start <= end && end <= source.len());
            assert!(end - 1 < source.chars().count());
            assert!(variants[i].starts_with(&source[..start]));
            assert!(variants[i].ends_with(&source[end..]));
            let middle = &variants[i][start..variants[i].len() - (source.len() - end)];
            assert!(middle.starts_with("struct "));
            assert!(middle.ends_with(";"));
        }
    }
}

#[test]
fn every_identifier_variant_differs_from_the_source_at_the_target_alone() {
    let replacements = ["", "i32", "str", "Copy"];
    for source in odd_sources() {
        let tree = tree_of(source);
        let mut cursor = tree.walk();
        let mut acc: Vec<TypePosInfo> = Vec::new();
        traverse(source, &mut cursor, &mut acc);
        let variants = crusher::typename_crusher::get_struct_crushed_sources(source).unwrap();
        assert_eq!(variants.len(), 4 * acc.len());
        for i in 0..acc.len() {
            let (start, end) = (acc[i].0, acc[i].1);
            assert!(start <= end && end <= source.len());
            assert!(end - 1 < source.chars().count());
            for j in 0..4 {
                let mut expected = String::from(&source[..start]);
                expected.push_str(replacements[j]);
                expected.push_str(&source[end..]);
                assert_eq!(variants[4 * i + j], expected);
            }
        }
    }
}

use crusher::text::{between, prefix, same_text, span_is_safe, span_is_whole, splice, suffix};

#[test]
fn prefix_and_suffix_cut_at_a_byte_offset() {
    let source = "struct A;";
    assert_eq!(prefix(source, 0), "");
    assert_eq!(prefix(source, 6), "struct");
    assert_eq!(prefix(source, 9), "struct A;");
    assert_eq!(suffix(source, 0), "struct A;");
    assert_eq!(suffix(source, 7), "A;");
    assert_eq!(suffix(source, 9), "");
}

#[test]
fn prefix_and_suffix_count_bytes_not_characters() {
    let source = "\u{e9}: Foo";
    assert_eq!(source.len(), 7);
    assert_eq!(prefix(source, 2), "\u{e9}");
    assert_eq!(suffix(source, 2), ": Foo");
    assert_eq!(suffix(source, 4), "Foo");
}

#[test]
fn between_gives_the_text_of_a_span() {
    let source = "struct Point(i32, i32);";
    assert_eq!(between(source, 7, 12), "Point");
    assert_eq!(between(source, 0, 0), "");
    assert_eq!(between(source, 23, 23), "");
    assert_eq!(between(source, 0, 23), source);
    assert_eq!(between("a\u{e9}b", 1, 3), "\u{e9}");
}

#[test]
fn splice_replaces_the_span() {
    assert_eq!(splice("struct B(i32);", 0, 14, "struct B;"), "struct B;");
    assert_eq!(splice("let x: Foo = 1;", 7, 10, "i32"), "let x: i32 = 1;");
    assert_eq!(splice("let x: Foo = 1;", 7, 10, ""), "let x:  = 1;");
}

#[test]
fn splice_of_an_empty_span_inserts() {
    assert_eq!(splice("ab", 1, 1, "-"), "a-b");
    assert_eq!(splice("ab", 0, 0, "-"), "-ab");
    assert_eq!(splice("ab", 2, 2, "-"), "ab-");
    assert_eq!(splice("", 0, 0, "x"), "x");
}

#[test]
fn splice_keeps_characters_of_several_bytes() {
    assert_eq!(splice("\u{e9}: Foo", 4, 7, "i32"), "\u{e9}: i32");
    assert_eq!(splice("// \u{1f600}\nstruct A;", 8, 17, "struct A();"), "// \u{1f600}\nstruct A();");
    assert_eq!(splice("a\u{e9}b", 1, 3, "e"), "aeb");
}

#[test]
fn splice_with_the_span_s_own_text_gives_the_source_again() {
    let sources = ["struct Point(i32, i32);\nstruct Unit;", "// \u{e9}\nstruct A;", ""];
    let spans = [(0usize, 23usize), (6, 15), (0, 0)];
    for k in 0..3 {
        let source = sources[k];
        let (start, end) = spans[k];
        let own = between(source, start, end).to_string();
        assert_eq!(splice(source, start, end, &own), source);
    }
}

#[test]
fn splice_leaves_the_source_as_it_was() {
    let source = String::from("struct A;");
    let copy = source.clone();
    let variant = splice(&source, 0, 9, "struct A();");
    assert_eq!(source, copy);
    assert_eq!(variant, "struct A();");
}

#[test]
fn the_filter_wants_the_end_less_one_to_index_a_character() {
    assert!(span_is_safe("abc", 0, 3));
    assert!(span_is_safe("abc", 0, 1));
    assert!(span_is_safe("abc", 3, 3));
    assert!(!span_is_safe("abc", 0, 4));
    assert!(!span_is_safe("abc", 0, 0));
    assert!(!span_is_safe("", 0, 0));
}

#[test]
fn the_filter_counts_characters_against_a_byte_offset() {
    // one character of two bytes: the end byte 2 is one past the last
    // character index plus one
    assert!(!span_is_safe("\u{e9}", 0, 2));
    assert!(span_is_safe("\u{e9}a", 0, 2));
    assert!(!span_is_safe("\u{e9}a", 0, 3));
    assert!(span_is_safe("// \u{e9}\nstruct A;", 13, 14));
    assert!(!span_is_safe("// \u{e9}\nstruct A;", 6, 15));
}

#[test]
fn the_filter_drops_a_span_that_splits_a_character() {
    assert!(!span_is_safe("a\u{e9}b", 0, 2));
    assert!(!span_is_safe("\u{e9}ab", 1, 3));
    assert!(span_is_safe("\u{e9}ab", 2, 3));
}

#[test]
fn the_filter_drops_a_span_that_ends_before_it_starts() {
    assert!(!span_is_safe("abc", 2, 1));
    assert!(span_is_safe("abc", 2, 2));
}

#[test]
fn span_is_whole_tells_spans_from_other_ranges() {
    assert!(span_is_whole("abc", 0, 0));
    assert!(span_is_whole("abc", 0, 3));
    assert!(span_is_whole("\u{e9}", 0, 2));
    assert!(!span_is_whole("\u{e9}", 0, 1));
    assert!(!span_is_whole("\u{e9}", 1, 2));
    assert!(!span_is_whole("abc", 0, 4));
    assert!(!span_is_whole("abc", 4, 4));
    assert!(!span_is_whole("abc", 2, 1));
}

#[test]
fn same_text_compares_characters() {
    assert!(same_text("struct_item", "struct_item"));
    assert!(same_text("", ""));
    assert!(!same_text("struct_item", "struct_items"));
    assert!(!same_text("struct_item", "struct_iten"));
    assert!(!same_text("type_identifier", "struct_item"));
    assert!(!same_text("", "a"));
}

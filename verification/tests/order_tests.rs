use tree_tui::order::{by_extension, by_modified, by_name, by_size, Order};

#[test]
fn names_compare_by_characters() {
    assert_eq!(by_name("a", "b"), Order::Less);
    assert_eq!(by_name("b", "a"), Order::Greater);
    assert_eq!(by_name("a", "a"), Order::Equal);
    assert_eq!(by_name("Z", "a"), Order::Less);
    assert_eq!(by_name("ab", "a"), Order::Greater);
    assert_eq!(by_name("", "a"), Order::Less);
    assert_eq!(by_name("é", "z"), Order::Greater);
}

#[test]
fn extensions_first_then_names() {
    // No extension sorts before any extension.
    assert_eq!(by_extension("Makefile", "a.rs"), Order::Less);
    assert_eq!(by_extension("b.md", "a.rs"), Order::Less);
    assert_eq!(by_extension("a.rs", "b.rs"), Order::Less);
    assert_eq!(by_extension("b.rs", "a.rs"), Order::Greater);
    // A leading dot alone is no extension; "a." has an empty one.
    assert_eq!(by_extension(".git", "a."), Order::Less);
    assert_eq!(by_extension("a.", "b.x"), Order::Less);
    assert_eq!(by_extension("x.tar.gz", "y.gz"), Order::Less);
    assert_eq!(by_extension("same.rs", "same.rs"), Order::Equal);
}

#[test]
fn sizes_larger_first_then_names() {
    assert_eq!(by_size(10, 5, "z", "a"), Order::Less);
    assert_eq!(by_size(5, 10, "a", "z"), Order::Greater);
    assert_eq!(by_size(7, 7, "a", "b"), Order::Less);
    assert_eq!(by_size(7, 7, "b", "b"), Order::Equal);
}

#[test]
fn modified_newest_first_then_names() {
    assert_eq!(by_modified(20, 10, "z", "a"), Order::Less);
    assert_eq!(by_modified(10, 20, "a", "z"), Order::Greater);
    assert_eq!(by_modified(-5, -5, "a", "b"), Order::Less);
    assert_eq!(by_modified(0, -1, "b", "a"), Order::Less);
    assert_eq!(by_modified(3, 3, "b", "b"), Order::Equal);
}

use neural::embedding::EmbeddingBuilder;
use neural::tensor::flatten::{flatten, Node};
use neural::tensor::{size, skips};

#[test]
fn skips_are_suffix_products() {
    assert_eq!(skips(&vec![2, 3, 4]), vec![12, 4, 1]);
    assert_eq!(skips(&vec![5]), vec![1]);
}

#[test]
fn size_is_the_product_of_extents() {
    assert_eq!(size(&vec![2, 3, 4]), 24);
    assert_eq!(size(&Vec::new()), 1);
}

#[test]
fn flatten_keeps_leaf_order() {
    let node = Node::Children(vec![
        Node::Leaf(1.0_f64),
        Node::Children(vec![Node::Leaf(2.0), Node::Leaf(3.0)]),
        Node::Leaf(4.0),
    ]);
    assert_eq!(flatten(&node), vec![1.0, 2.0, 3.0, 4.0]);
}

#[test]
fn flatten_single_leaf() {
    assert_eq!(flatten(&Node::Leaf(7_u32)), vec![7]);
}

#[test]
fn flatten_empty_children() {
    let node: Node<f64> = Node::Children(Vec::new());
    assert_eq!(flatten(&node), Vec::<f64>::new());
}

#[test]
fn builder_numbers_the_cleaned_text() {
    let b = EmbeddingBuilder::new(String::from("The cat, the hat."));
    assert_eq!(b.num_to_word, vec!["the", "cat", "hat"]);
    assert_eq!(b.codex, vec![0, 1, 0, 2]);
    assert_eq!(b.dict_size, 3);
    assert_eq!(b.codex_size, 4);
    assert_eq!(b.window, 1);
    assert_eq!(b.dim, 1);
}

#[test]
fn builder_window_and_dim_replace_only_their_field() {
    let b = EmbeddingBuilder::new(String::from("a b c")).window(2).dim(5);
    assert_eq!(b.window, 2);
    assert_eq!(b.dim, 5);
    assert_eq!(b.dict_size, 3);
    assert_eq!(b.codex, vec![0, 1, 2]);
}

#[test]
fn one_hot_marks_the_word() {
    let b = EmbeddingBuilder::new(String::from("a b c"));
    let oh = b.one_hot(1);
    assert_eq!(oh.size, 3);
    assert_eq!(oh.hot, 1);
}

#[test]
fn random_pairing_draws_neighbours_from_the_codex() {
    let b = EmbeddingBuilder::new(String::from("a b a b"));
    assert_eq!(b.codex, vec![0, 1, 0, 1]);
    for _ in 0..40 {
        let (x, y) = b.random_pairing();
        assert_eq!(x.size, 2);
        assert_eq!(y.size, 2);
        // every pair one step apart in this codex holds both words
        assert!(x.hot != y.hot);
        assert!(x.hot < 2 && y.hot < 2);
    }
}

#[test]
fn random_pairing_respects_the_window() {
    let b = EmbeddingBuilder::new(String::from("a b c d e")).window(2);
    for _ in 0..40 {
        let (x, y) = b.random_pairing();
        let dist = if x.hot > y.hot { x.hot - y.hot } else { y.hot - x.hot };
        // word k sits at codex position k here, so distance mirrors offset
        assert!(dist >= 1 && dist <= 2);
        assert!(x.hot < 5 && y.hot < 5);
    }
}

use neural::layout::Layout;
use neural::network::{chained, forward_lens, LayerShape};

#[test]
fn layout_new_is_row_major() {
    let l = Layout::new(2, 3);
    assert_eq!(l.dims, vec![2, 3]);
    assert_eq!(l.step, vec![3, 1]);
    assert_eq!(l.size, 6);
}

#[test]
fn layout_index_walks_rows_first() {
    let l = Layout::new(2, 3);
    assert_eq!(l.index(0, 0), 0);
    assert_eq!(l.index(0, 2), 2);
    assert_eq!(l.index(1, 0), 3);
    assert_eq!(l.index(1, 2), 5);
}

#[test]
fn layout_transpose_swaps_axes_over_same_cells() {
    let l = Layout::new(2, 3);
    let t = l.transpose();
    assert_eq!(t.dims, vec![3, 2]);
    assert_eq!(t.step, vec![1, 3]);
    assert_eq!(t.size, 6);
    for i in 0..2 {
        for j in 0..3 {
            assert_eq!(l.index(i, j), t.index(j, i));
        }
    }
}

#[test]
fn layout_transpose_twice_restores() {
    let l = Layout::new(4, 7);
    let back = l.transpose().transpose();
    assert_eq!(back.dims, l.dims);
    assert_eq!(back.step, l.step);
    assert_eq!(back.size, l.size);
    for i in 0..4 {
        for j in 0..7 {
            assert_eq!(back.index(i, j), l.index(i, j));
        }
    }
}

#[test]
fn layout_single_cell() {
    let l = Layout::new(1, 1);
    assert_eq!(l.index(0, 0), 0);
    let t = l.transpose();
    assert_eq!(t.dims, vec![1, 1]);
    assert_eq!(t.index(0, 0), 0);
}

#[test]
fn layout_single_row() {
    let l = Layout::new(1, 4);
    for j in 0..4 {
        assert_eq!(l.index(0, j), j);
        assert_eq!(l.transpose().index(j, 0), j);
    }
}

#[test]
fn forward_lens_single_layer() {
    let shapes = vec![LayerShape { inputs: 2, outputs: 5 }];
    assert_eq!(forward_lens(&shapes, 2).unwrap(), vec![2, 5, 5]);
}

#[test]
fn chained_accepts_matching_stack() {
    let shapes = vec![
        LayerShape { inputs: 3, outputs: 2 },
        LayerShape { inputs: 2, outputs: 4 },
        LayerShape { inputs: 4, outputs: 1 },
    ];
    assert!(chained(&shapes));
}

#[test]
fn chained_rejects_broken_stack() {
    let shapes = vec![
        LayerShape { inputs: 3, outputs: 2 },
        LayerShape { inputs: 3, outputs: 4 },
    ];
    assert!(!chained(&shapes));
}

#[test]
fn chained_accepts_empty_and_single() {
    assert!(chained(&Vec::new()));
    assert!(chained(&vec![LayerShape { inputs: 9, outputs: 9 }]));
}

#[test]
fn forward_lens_counts_layers_plus_two() {
    let shapes = vec![
        LayerShape { inputs: 3, outputs: 2 },
        LayerShape { inputs: 2, outputs: 4 },
    ];
    let lens = forward_lens(&shapes, 3).unwrap();
    assert_eq!(lens, vec![3, 2, 4, 4]);
}

#[test]
fn forward_lens_rejects_wrong_input() {
    let shapes = vec![LayerShape { inputs: 3, outputs: 2 }];
    assert!(forward_lens(&shapes, 4).is_none());
}

#[test]
fn forward_lens_rejects_broken_chain() {
    let shapes = vec![
        LayerShape { inputs: 3, outputs: 2 },
        LayerShape { inputs: 5, outputs: 4 },
    ];
    assert!(forward_lens(&shapes, 3).is_none());
}

#[test]
fn forward_lens_no_layers_keeps_input_and_softmax() {
    let lens = forward_lens(&Vec::new(), 6).unwrap();
    assert_eq!(lens, vec![6, 6]);
}

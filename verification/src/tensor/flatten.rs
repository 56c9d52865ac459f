use vstd::prelude::*;

verus! {

/// A nested tensor literal: either a single value or a list of further nodes.
pub enum Node<T> {
    Children(Vec<Node<T>>),
    Leaf(T),
}

/// The leaves of `node`, left to right.
pub open spec fn leaves<T>(node: Node<T>) -> Seq<T>
    decreases node, 0nat, 0nat,
{
    match node {
        Node::Children(children) => leaves_from(children@, 0),
        Node::Leaf(t) => seq![t],
    }
}

/// The leaves of the nodes of `nodes` from position `from` on, in order.
pub open spec fn leaves_from<T>(nodes: Seq<Node<T>>, from: int) -> Seq<T>
    decreases nodes, 1nat, nodes.len() - from,
{
    if from < 0 || from >= nodes.len() {
        Seq::empty()
    } else {
        leaves(nodes[from]) + leaves_from(nodes, from + 1)
    }
}

/// The leaves of `vec`, left to right, as one flat vector.
pub fn flatten<T: Copy>(vec: &Node<T>) -> (r: Vec<T>)
    ensures
        r@ == leaves(*vec),
    decreases *vec, 0nat, 0nat,
{
    match vec {
        Node::Children(children) => flatten_from(children, 0),
        Node::Leaf(leaf) => {
            let mut r = Vec::new();
            r.push(*leaf);
            proof {
                assert(r@ =~= leaves(*vec));
            }
            r
        },
    }
}

/// The leaves of the nodes of `list` from position `from` on.
fn flatten_from<T: Copy>(list: &Vec<Node<T>>, from: usize) -> (r: Vec<T>)
    requires
        from <= list@.len(),
    ensures
        r@ == leaves_from(list@, from as int),
    decreases list@, 1nat, list@.len() - from,
{
    if from == list.len() {
        let r: Vec<T> = Vec::new();
        proof {
            assert(r@ =~= leaves_from(list@, from as int));
        }
        r
    } else {
        let mut r = flatten(&list[from]);
        let mut rest = flatten_from(list, from + 1);
        r.append(&mut rest);
        r
    }
}

} // verus!

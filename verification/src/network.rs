use vstd::prelude::*;

verus! {

/// The shape of one affine layer: its weights are `inputs` by `outputs`, with
/// one bias per output.
pub struct LayerShape {
    pub inputs: usize,
    pub outputs: usize,
}

/// Layers stack when each one produces exactly as many values as the next one
/// expects.
pub open spec fn chained_spec(shapes: Seq<LayerShape>) -> bool {
    forall|k: int| 0 <= k && k + 1 < shapes.len() ==> shapes[k].outputs == shapes[k + 1].inputs
}

/// An input of length `input_len` fits a stack of layers when it matches the
/// first layer and every layer feeds the next.
pub open spec fn accepts_spec(shapes: Seq<LayerShape>, input_len: int) -> bool {
    &&& chained_spec(shapes)
    &&& shapes.len() > 0 ==> input_len == shapes[0].inputs
}

/// Whether the layers of `shapes` stack.
pub fn chained(shapes: &Vec<LayerShape>) -> (r: bool)
    ensures
        r == chained_spec(shapes@),
{
    let n = shapes.len();
    if n == 0 {
        return true;
    }
    let mut k: usize = 0;
    let mut ok = true;
    while k < n - 1
        invariant
            n == shapes@.len(),
            1 <= n,
            k <= n - 1,
            ok == forall|t: int| 0 <= t < k ==> shapes@[t].outputs == shapes@[t + 1].inputs,
        decreases n - k,
    {
        if shapes[k].outputs != shapes[k + 1].inputs {
            ok = false;
        }
        k = k + 1;
    }
    ok
}

/// The lengths of the vectors one forward pass holds on to: the input, one
/// output per layer, and the final softmax of the last output — `layers + 2`
/// entries in all. `None` exactly when the input does not fit the first layer
/// or some layer does not feed the next.
pub fn forward_lens(shapes: &Vec<LayerShape>, input_len: usize) -> (r: Option<Vec<usize>>)
    ensures
        match r {
            Some(lens) => {
                &&& accepts_spec(shapes@, input_len as int)
                &&& lens@.len() == shapes@.len() + 2
                &&& lens@[0] == input_len
                &&& forall|k: int| 0 <= k < shapes@.len() ==> lens@[k + 1] == shapes@[k].outputs
                &&& lens@[shapes@.len() as int + 1] == lens@[shapes@.len() as int]
            },
            None => !accepts_spec(shapes@, input_len as int),
        },
{
    let mut lens: Vec<usize> = Vec::new();
    lens.push(input_len);
    let mut cur = input_len;
    let mut k: usize = 0;
    while k < shapes.len()
        invariant
            k <= shapes@.len(),
            lens@.len() == k + 1,
            lens@[0] == input_len,
            forall|t: int| 0 <= t < k ==> lens@[t + 1] == shapes@[t].outputs,
            cur == lens@[k as int],
            forall|t: int| 0 <= t && t + 1 < k ==> shapes@[t].outputs == shapes@[t + 1].inputs,
            k > 0 ==> input_len == shapes@[0].inputs,
        decreases shapes@.len() - k,
    {
        if cur != shapes[k].inputs {
            proof {
                if k == 0 {
                    assert(!accepts_spec(shapes@, input_len as int));
                } else {
                    assert(shapes@[k - 1].outputs != shapes@[k as int].inputs);
                    assert(!chained_spec(shapes@));
                }
            }
            return None;
        }
        cur = shapes[k].outputs;
        lens.push(cur);
        k = k + 1;
    }
    lens.push(cur);
    Some(lens)
}

} // verus!

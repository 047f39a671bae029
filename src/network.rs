use vstd::prelude::*;

use crate::bytes::copy_range;
use crate::layer::{
    apply_gradients, backward_node_values, back_fits, back_step_fits, feed_forwards,
    get_output_layer_node_value, is_accumulated, is_applied, is_backward, is_forward,
    is_output_nodes, is_stack_forward, layer_fits, stack_fits, stack_input, update_gradients,
    Forward,
};
use crate::matrix::{Matrix, MatrixError};

verus! {

/// The gradient accumulators of a layer with weights `w` are all `zero`.
pub open spec fn zero_grad<T: Copy>(w: Matrix<T>, zero: T, gw: Matrix<T>, gb: Matrix<T>) -> bool {
    &&& gw.wf()
    &&& gw.same_shape(&w)
    &&& gb.wf()
    &&& gb.rows == w.rows
    &&& gb.cols == 1
    &&& forall|i: int, j: int| 0 <= i < w.rows && 0 <= j < w.cols ==> #[trigger] gw.at(i, j) == zero
    &&& forall|i: int| 0 <= i < w.rows ==> #[trigger] gb.at(i, 0) == zero
}

/// One accumulator pair per layer, all `zero`.
pub open spec fn zero_grads<T: Copy>(
    weights: Seq<Matrix<T>>,
    zero: T,
    gw: Seq<Matrix<T>>,
    gb: Seq<Matrix<T>>,
) -> bool {
    &&& gw.len() == weights.len()
    &&& gb.len() == weights.len()
    &&& forall|k: int| 0 <= k < weights.len() ==> #[trigger] zero_grad(weights[k], zero, gw[k], gb[k])
}

/// A sample fits the stack: its input has the width the first layer takes,
/// its target one entry per output unit.
pub open spec fn sample_fits<T: Copy>(
    weights: Seq<Matrix<T>>,
    biases: Seq<Matrix<T>>,
    input_len: int,
    target_len: int,
) -> bool {
    &&& stack_fits(weights, biases, input_len)
    &&& target_len == weights[weights.len() - 1].rows
}

/// A batch fits the stack: at least one layer, a bias column for each, a
/// target for every input,
/// and every sample fits.
pub open spec fn batch_fits<T: Copy>(
    weights: Seq<Matrix<T>>,
    biases: Seq<Matrix<T>>,
    inputs: Seq<Vec<T>>,
    targets: Seq<Vec<T>>,
) -> bool {
    &&& weights.len() >= 1
    &&& biases.len() == weights.len()
    &&& forall|k: int|
        0 <= k < weights.len() ==> (#[trigger] biases[k]).rows == weights[k].rows && biases[k].cols
            == 1
    &&& inputs.len() == targets.len()
    &&& forall|s: int|
        0 <= s < inputs.len() ==> #[trigger] sample_fits(
            weights,
            biases,
            inputs[s]@.len() as int,
            targets[s]@.len() as int,
        )
}

/// What one sample makes of the stack: its forward passes, the weighted
/// sums of every layer, and the node values from the output layer down.
pub open spec fn sample_trace<T: Copy, F: Fn(T, T) -> T, G: Fn(T, T) -> T, H: Fn(T) -> T, D: Fn(T) -> T, C: Fn(T, T) -> T>(
    weights: Seq<Matrix<T>>,
    biases: Seq<Matrix<T>>,
    input: Seq<T>,
    target: Seq<T>,
    zero: T,
    times: F,
    plus: G,
    activation: H,
    derivative: D,
    cost_derivative: C,
    passes: Seq<Forward<T>>,
    weighted: Seq<Vec<T>>,
    nodes: Seq<Vec<T>>,
) -> bool {
    let n = weights.len();
    &&& is_stack_forward(weights, biases, input, zero, times, plus, activation, passes)
    &&& weighted.len() == n
    &&& forall|k: int| 0 <= k < n ==> (#[trigger] weighted[k])@ == passes[k].weighted@
    &&& is_output_nodes(
        passes[n - 1].weighted@,
        target,
        activation,
        derivative,
        cost_derivative,
        times,
        nodes[0]@,
    )
    &&& is_backward(weights, weighted, nodes[0]@, zero, times, plus, derivative, nodes)
}

/// Every layer's accumulators `gw2`, `gb2` are `gw`, `gb` with the sample's
/// gradients added: the layer's input against its node values.
pub open spec fn all_accumulated<T: Copy, F: Fn(T, T) -> T, G: Fn(T, T) -> T>(
    input: Seq<T>,
    passes: Seq<Forward<T>>,
    nodes: Seq<Vec<T>>,
    times: F,
    plus: G,
    gw: Seq<Matrix<T>>,
    gb: Seq<Matrix<T>>,
    gw2: Seq<Matrix<T>>,
    gb2: Seq<Matrix<T>>,
) -> bool {
    let n = gw.len();
    &&& gb.len() == n
    &&& gw2.len() == n
    &&& gb2.len() == n
    &&& forall|k: int|
        0 <= k < n ==> #[trigger] is_accumulated(
            gw[k],
            gb[k],
            stack_input(input, passes, k),
            nodes[n - 1 - k]@,
            times,
            plus,
            gw2[k],
            gb2[k],
        )
}

/// One sample of a batch: it runs forward and backward through the stack,
/// and its gradients are added to every layer's accumulators.
pub open spec fn sample_step<T: Copy, F: Fn(T, T) -> T, G: Fn(T, T) -> T, H: Fn(T) -> T, D: Fn(T) -> T, C: Fn(T, T) -> T>(
    weights: Seq<Matrix<T>>,
    biases: Seq<Matrix<T>>,
    input: Seq<T>,
    target: Seq<T>,
    zero: T,
    times: F,
    plus: G,
    activation: H,
    derivative: D,
    cost_derivative: C,
    gw: Seq<Matrix<T>>,
    gb: Seq<Matrix<T>>,
    gw2: Seq<Matrix<T>>,
    gb2: Seq<Matrix<T>>,
) -> bool {
    exists|passes: Seq<Forward<T>>, weighted: Seq<Vec<T>>, nodes: Seq<Vec<T>>|
        #[trigger] sample_trace(
            weights,
            biases,
            input,
            target,
            zero,
            times,
            plus,
            activation,
            derivative,
            cost_derivative,
            passes,
            weighted,
            nodes,
        ) && all_accumulated(input, passes, nodes, times, plus, gw, gb, gw2, gb2)
}

/// `gws`, `gbs` are the accumulators of every layer after each sample of
/// the batch, in order, starting from `zero`.
pub open spec fn batch_gradients<T: Copy, F: Fn(T, T) -> T, G: Fn(T, T) -> T, H: Fn(T) -> T, D: Fn(T) -> T, C: Fn(T, T) -> T>(
    weights: Seq<Matrix<T>>,
    biases: Seq<Matrix<T>>,
    inputs: Seq<Vec<T>>,
    targets: Seq<Vec<T>>,
    zero: T,
    times: F,
    plus: G,
    activation: H,
    derivative: D,
    cost_derivative: C,
    gws: Seq<Seq<Matrix<T>>>,
    gbs: Seq<Seq<Matrix<T>>>,
) -> bool {
    &&& gws.len() == inputs.len() + 1
    &&& gbs.len() == inputs.len() + 1
    &&& zero_grads(weights, zero, gws[0], gbs[0])
    &&& forall|s: int|
        0 <= s < inputs.len() ==> #[trigger] sample_step(
            weights,
            biases,
            inputs[s]@,
            targets[s]@,
            zero,
            times,
            plus,
            activation,
            derivative,
            cost_derivative,
            gws[s],
            gbs[s],
            gws[s + 1],
            gbs[s + 1],
        )
}

/// Every layer of the stack has taken its step: weights and biases lose
/// `rate` times their accumulated gradients.
pub open spec fn all_applied<T: Copy, F: Fn(T, T) -> T, M: Fn(T, T) -> T>(
    weights: Seq<Matrix<T>>,
    biases: Seq<Matrix<T>>,
    gw: Seq<Matrix<T>>,
    gb: Seq<Matrix<T>>,
    rate: T,
    times: F,
    minus: M,
    new_weights: Seq<Matrix<T>>,
    new_biases: Seq<Matrix<T>>,
) -> bool {
    &&& new_weights.len() == weights.len()
    &&& new_biases.len() == weights.len()
    &&& forall|k: int|
        0 <= k < weights.len() ==> #[trigger] is_applied(
            weights[k],
            gw[k],
            rate,
            times,
            minus,
            new_weights[k],
        ) && is_applied(biases[k], gb[k], rate, times, minus, new_biases[k])
}

/// `new_weights`, `new_biases` are `weights`, `biases` after one batch of
/// gradient descent on `inputs` and `targets`: the batch fits, and every
/// layer loses `rate` times the sum of the batch's gradients.
pub open spec fn learn_step<T: Copy, F: Fn(T, T) -> T, G: Fn(T, T) -> T, M: Fn(T, T) -> T, H: Fn(T) -> T, D: Fn(T) -> T, C: Fn(T, T) -> T>(
    weights: Seq<Matrix<T>>,
    biases: Seq<Matrix<T>>,
    inputs: Seq<Vec<T>>,
    targets: Seq<Vec<T>>,
    rate: T,
    zero: T,
    times: F,
    plus: G,
    minus: M,
    activation: H,
    derivative: D,
    cost_derivative: C,
    new_weights: Seq<Matrix<T>>,
    new_biases: Seq<Matrix<T>>,
) -> bool {
    &&& batch_fits(weights, biases, inputs, targets)
    &&& exists|gws: Seq<Seq<Matrix<T>>>, gbs: Seq<Seq<Matrix<T>>>|
        #[trigger] batch_gradients(
            weights,
            biases,
            inputs,
            targets,
            zero,
            times,
            plus,
            activation,
            derivative,
            cost_derivative,
            gws,
            gbs,
        ) && all_applied(
            weights,
            biases,
            gws.last(),
            gbs.last(),
            rate,
            times,
            minus,
            new_weights,
            new_biases,
        )
}

/// A step keeps every matrix well formed and of the same shape, so the
/// batch still fits afterwards.
proof fn lemma_step_keeps_shapes<T: Copy, F: Fn(T, T) -> T, G: Fn(T, T) -> T, M: Fn(T, T) -> T, H: Fn(T) -> T, D: Fn(T) -> T, C: Fn(T, T) -> T>(
    weights: Seq<Matrix<T>>,
    biases: Seq<Matrix<T>>,
    inputs: Seq<Vec<T>>,
    targets: Seq<Vec<T>>,
    rate: T,
    zero: T,
    times: F,
    plus: G,
    minus: M,
    activation: H,
    derivative: D,
    cost_derivative: C,
    new_weights: Seq<Matrix<T>>,
    new_biases: Seq<Matrix<T>>,
)
    requires
        learn_step(
            weights,
            biases,
            inputs,
            targets,
            rate,
            zero,
            times,
            plus,
            minus,
            activation,
            derivative,
            cost_derivative,
            new_weights,
            new_biases,
        ),
    ensures
        new_weights.len() == weights.len(),
        new_biases.len() == biases.len(),
        forall|k: int| 0 <= k < new_weights.len() ==> (#[trigger] new_weights[k]).wf(),
        forall|k: int| 0 <= k < new_biases.len() ==> (#[trigger] new_biases[k]).wf(),
        batch_fits(new_weights, new_biases, inputs, targets),
{
    let (gws, gbs) = choose|gws: Seq<Seq<Matrix<T>>>, gbs: Seq<Seq<Matrix<T>>>|
        #[trigger] batch_gradients(
            weights,
            biases,
            inputs,
            targets,
            zero,
            times,
            plus,
            activation,
            derivative,
            cost_derivative,
            gws,
            gbs,
        ) && all_applied(
            weights,
            biases,
            gws.last(),
            gbs.last(),
            rate,
            times,
            minus,
            new_weights,
            new_biases,
        );
    let n = weights.len();
    assert forall|k: int| 0 <= k < n implies (#[trigger] new_weights[k]).wf() && new_weights[k].same_shape(
        &weights[k],
    ) && new_biases[k].wf() && new_biases[k].same_shape(&biases[k]) by {
        assert(is_applied(weights[k], gws.last()[k], rate, times, minus, new_weights[k]));
    }
    assert forall|k: int| 0 <= k < new_biases.len() implies (#[trigger] new_biases[k]).wf() by {
        assert(new_weights[k].wf());
    }
    assert forall|k: int| 0 <= k < n implies (#[trigger] new_biases[k]).rows == new_weights[k].rows
        && new_biases[k].cols == 1 by {
        assert(new_weights[k].wf());
        assert(biases[k].rows == weights[k].rows);
    }
    assert forall|q: int| 0 <= q < inputs.len() implies #[trigger] sample_fits(
        new_weights,
        new_biases,
        inputs[q]@.len() as int,
        targets[q]@.len() as int,
    ) by {
        assert(sample_fits(weights, biases, inputs[q]@.len() as int, targets[q]@.len() as int));
        assert forall|k: int| 0 <= k < n implies #[trigger] layer_fits(
            new_weights,
            new_biases,
            inputs[q]@.len() as int,
            k,
        ) by {
            assert(new_weights[k].wf());
            assert(layer_fits(weights, biases, inputs[q]@.len() as int, k));
            if k > 0 {
                assert(new_weights[k - 1].wf());
            }
        }
        assert(new_weights[n - 1].wf());
    }
}

/// Full-batch gradient descent: `epochs` steps of `learn` over the whole
/// batch. Fails, changing nothing, exactly when there is a step to take and
/// the batch does not fit.
pub fn train<T: Copy, F: Fn(T, T) -> T + Copy, G: Fn(T, T) -> T + Copy, M: Fn(T, T) -> T + Copy, H: Fn(T) -> T + Copy, D: Fn(T) -> T + Copy, C: Fn(T, T) -> T + Copy>(
    weights: &mut Vec<Matrix<T>>,
    biases: &mut Vec<Matrix<T>>,
    inputs: &Vec<Vec<T>>,
    targets: &Vec<Vec<T>>,
    epochs: usize,
    rate: T,
    zero: T,
    times: F,
    plus: G,
    minus: M,
    activation: H,
    derivative: D,
    cost_derivative: C,
) -> (r: Result<(), MatrixError>)
    requires
        forall|k: int| 0 <= k < old(weights)@.len() ==> (#[trigger] old(weights)@[k]).wf(),
        forall|k: int| 0 <= k < old(biases)@.len() ==> (#[trigger] old(biases)@[k]).wf(),
        forall|x: T, y: T| times.requires((x, y)),
        forall|x: T, y: T| plus.requires((x, y)),
        forall|x: T, y: T| minus.requires((x, y)),
        forall|x: T| activation.requires((x,)),
        forall|x: T| derivative.requires((x,)),
        forall|x: T, y: T| cost_derivative.requires((x, y)),
    ensures
        match r {
            Ok(_) => exists|ws: Seq<Seq<Matrix<T>>>, bs: Seq<Seq<Matrix<T>>>|
                #![trigger ws.len(), bs.len()]
                {
                    &&& ws.len() == epochs + 1
                    &&& bs.len() == epochs + 1
                    &&& ws[0] == old(weights)@
                    &&& bs[0] == old(biases)@
                    &&& ws.last() == final(weights)@
                    &&& bs.last() == final(biases)@
                    &&& forall|e: int|
                        0 <= e < epochs ==> #[trigger] learn_step(
                            ws[e],
                            bs[e],
                            inputs@,
                            targets@,
                            rate,
                            zero,
                            times,
                            plus,
                            minus,
                            activation,
                            derivative,
                            cost_derivative,
                            ws[e + 1],
                            bs[e + 1],
                        )
                },
            Err(e) => {
                &&& e == MatrixError::ShapeMismatch
                &&& epochs > 0
                &&& !batch_fits(old(weights)@, old(biases)@, inputs@, targets@)
                &&& final(weights)@ == old(weights)@
                &&& final(biases)@ == old(biases)@
            },
        },
{
    let ghost mut ws: Seq<Seq<Matrix<T>>> = seq![weights@];
    let ghost mut bs: Seq<Seq<Matrix<T>>> = seq![biases@];
    let mut e: usize = 0;
    while e < epochs
        invariant
            forall|k: int| 0 <= k < weights@.len() ==> (#[trigger] weights@[k]).wf(),
            forall|k: int| 0 <= k < biases@.len() ==> (#[trigger] biases@[k]).wf(),
            forall|x: T, y: T| times.requires((x, y)),
            forall|x: T, y: T| plus.requires((x, y)),
            forall|x: T, y: T| minus.requires((x, y)),
            forall|x: T| activation.requires((x,)),
            forall|x: T| derivative.requires((x,)),
            forall|x: T, y: T| cost_derivative.requires((x, y)),
            e <= epochs,
            ws.len() == e + 1,
            bs.len() == e + 1,
            ws[0] == old(weights)@,
            bs[0] == old(biases)@,
            ws.last() == weights@,
            bs.last() == biases@,
            e > 0 ==> batch_fits(weights@, biases@, inputs@, targets@),
            forall|q: int|
                0 <= q < e ==> #[trigger] learn_step(
                    ws[q],
                    bs[q],
                    inputs@,
                    targets@,
                    rate,
                    zero,
                    times,
                    plus,
                    minus,
                    activation,
                    derivative,
                    cost_derivative,
                    ws[q + 1],
                    bs[q + 1],
                ),
        decreases epochs - e,
    {
        let ghost before_w = weights@;
        let ghost before_b = biases@;
        match learn(
            weights,
            biases,
            inputs,
            targets,
            rate,
            zero,
            times,
            plus,
            minus,
            activation,
            derivative,
            cost_derivative,
        ) {
            Ok(_) => {},
            Err(_) => {
                return Err(MatrixError::ShapeMismatch);
            },
        }
        proof {
            lemma_step_keeps_shapes(
                before_w,
                before_b,
                inputs@,
                targets@,
                rate,
                zero,
                times,
                plus,
                minus,
                activation,
                derivative,
                cost_derivative,
                weights@,
                biases@,
            );
            let prev_w = ws;
            let prev_b = bs;
            ws = ws.push(weights@);
            bs = bs.push(biases@);
            assert forall|q: int| 0 <= q < e + 1 implies #[trigger] learn_step(
                ws[q],
                bs[q],
                inputs@,
                targets@,
                rate,
                zero,
                times,
                plus,
                minus,
                activation,
                derivative,
                cost_derivative,
                ws[q + 1],
                bs[q + 1],
            ) by {
                assert(ws[q] == prev_w[q] && bs[q] == prev_b[q]);
                if q < e {
                    assert(ws[q + 1] == prev_w[q + 1] && bs[q + 1] == prev_b[q + 1]);
                }
            }
        }
        e = e + 1;
    }
    assert(ws.len() == epochs + 1 && bs.len() == epochs + 1);
    Ok(())
}

/// One batch of gradient descent. Every sample runs forward and backward
/// through the stack, with the weights as they were before the batch, and
/// its gradients are summed, in order, into accumulators that start at
/// `zero`. Then every weight and bias loses `rate` times its sum. Where the
/// batch does not fit the stack, nothing changes.
pub fn learn<T: Copy, F: Fn(T, T) -> T + Copy, G: Fn(T, T) -> T + Copy, M: Fn(T, T) -> T + Copy, H: Fn(T) -> T + Copy, D: Fn(T) -> T + Copy, C: Fn(T, T) -> T + Copy>(
    weights: &mut Vec<Matrix<T>>,
    biases: &mut Vec<Matrix<T>>,
    inputs: &Vec<Vec<T>>,
    targets: &Vec<Vec<T>>,
    rate: T,
    zero: T,
    times: F,
    plus: G,
    minus: M,
    activation: H,
    derivative: D,
    cost_derivative: C,
) -> (r: Result<(), MatrixError>)
    requires
        forall|k: int| 0 <= k < old(weights)@.len() ==> (#[trigger] old(weights)@[k]).wf(),
        forall|k: int| 0 <= k < old(biases)@.len() ==> (#[trigger] old(biases)@[k]).wf(),
        forall|x: T, y: T| times.requires((x, y)),
        forall|x: T, y: T| plus.requires((x, y)),
        forall|x: T, y: T| minus.requires((x, y)),
        forall|x: T| activation.requires((x,)),
        forall|x: T| derivative.requires((x,)),
        forall|x: T, y: T| cost_derivative.requires((x, y)),
    ensures
        match r {
            Ok(_) => learn_step(
                old(weights)@,
                old(biases)@,
                inputs@,
                targets@,
                rate,
                zero,
                times,
                plus,
                minus,
                activation,
                derivative,
                cost_derivative,
                final(weights)@,
                final(biases)@,
            ),
            Err(e) => {
                &&& e == MatrixError::ShapeMismatch
                &&& !batch_fits(old(weights)@, old(biases)@, inputs@, targets@)
                &&& final(weights)@ == old(weights)@
                &&& final(biases)@ == old(biases)@
            },
        },
{
    let n = weights.len();
    if n == 0 || biases.len() != n || inputs.len() != targets.len() {
        return Err(MatrixError::ShapeMismatch);
    }
    let ghost w0 = weights@;
    let ghost b0 = biases@;
    let mut k: usize = 0;
    while k < n
        invariant
            n == weights@.len(),
            n == biases@.len(),
            k <= n,
            forall|q: int| 0 <= q < k ==> (#[trigger] biases@[q]).rows == weights@[q].rows
                && biases@[q].cols == 1,
        decreases n - k,
    {
        if biases[k].rows != weights[k].rows || biases[k].cols != 1 {
            return Err(MatrixError::ShapeMismatch);
        }
        k = k + 1;
    }
    let mut gw: Vec<Matrix<T>> = Vec::with_capacity(n);
    let mut gb: Vec<Matrix<T>> = Vec::with_capacity(n);
    let mut k: usize = 0;
    while k < n
        invariant
            n == weights@.len(),
            n == biases@.len(),
            forall|q: int| 0 <= q < n ==> (#[trigger] biases@[q]).rows == weights@[q].rows
                && biases@[q].cols == 1,
            forall|q: int| 0 <= q < weights@.len() ==> (#[trigger] weights@[q]).wf(),
            k <= n,
            gw@.len() == k,
            gb@.len() == k,
            forall|q: int| 0 <= q < k ==> #[trigger] zero_grad(weights@[q], zero, gw@[q], gb@[q]),
        decreases n - k,
    {
        let rows = weights[k].rows;
        let cols = weights[k].cols;
        gw.push(Matrix::filled(rows, cols, zero));
        gb.push(Matrix::filled(rows, 1, zero));
        assert(zero_grad(weights@[k as int], zero, gw@[k as int], gb@[k as int]));
        k = k + 1;
    }
    proof {
        assert forall|q: int| 0 <= q < n implies (#[trigger] gw@[q]).wf() && gw@[q].same_shape(
            &weights@[q],
        ) && gb@[q].wf() && gb@[q].rows == weights@[q].rows && gb@[q].cols == 1 by {
            assert(zero_grad(weights@[q], zero, gw@[q], gb@[q]));
        }
    }
    let ghost mut gws: Seq<Seq<Matrix<T>>> = seq![gw@];
    let ghost mut gbs: Seq<Seq<Matrix<T>>> = seq![gb@];
    let mut s: usize = 0;
    while s < inputs.len()
        invariant
            n == weights@.len(),
            n == biases@.len(),
            n >= 1,
            w0 == weights@,
            b0 == biases@,
            forall|q: int| 0 <= q < n ==> (#[trigger] b0[q]).rows == w0[q].rows && b0[q].cols == 1,
            inputs@.len() == targets@.len(),
            forall|q: int| 0 <= q < weights@.len() ==> (#[trigger] weights@[q]).wf(),
            forall|q: int| 0 <= q < biases@.len() ==> (#[trigger] biases@[q]).wf(),
            forall|x: T, y: T| times.requires((x, y)),
            forall|x: T, y: T| plus.requires((x, y)),
            forall|x: T| activation.requires((x,)),
            forall|x: T| derivative.requires((x,)),
            forall|x: T, y: T| cost_derivative.requires((x, y)),
            s <= inputs@.len(),
            gws.len() == s + 1,
            gbs.len() == s + 1,
            gws.last() == gw@,
            gbs.last() == gb@,
            gw@.len() == n,
            gb@.len() == n,
            forall|q: int|
                0 <= q < n ==> (#[trigger] gw@[q]).wf() && gw@[q].same_shape(&weights@[q])
                    && gb@[q].wf() && gb@[q].rows == weights@[q].rows && gb@[q].cols == 1,
            zero_grads(w0, zero, gws[0], gbs[0]),
            forall|q: int|
                0 <= q < s ==> #[trigger] sample_fits(
                    w0,
                    b0,
                    inputs@[q]@.len() as int,
                    targets@[q]@.len() as int,
                ),
            forall|q: int|
                0 <= q < s ==> #[trigger] sample_step(
                    w0,
                    b0,
                    inputs@[q]@,
                    targets@[q]@,
                    zero,
                    times,
                    plus,
                    activation,
                    derivative,
                    cost_derivative,
                    gws[q],
                    gbs[q],
                    gws[q + 1],
                    gbs[q + 1],
                ),
        decreases inputs@.len() - s,
    {
        let passes = match feed_forwards(weights, biases, &inputs[s], zero, times, plus, activation) {
            Ok(p) => p,
            Err(_) => {
                proof {
                    assert(!sample_fits(w0, b0, inputs@[s as int]@.len() as int, targets@[s as int]@.len() as int));
                }
                return Err(MatrixError::ShapeMismatch);
            },
        };
        proof {
            assert(is_forward(
                weights@[n - 1],
                biases@[n - 1],
                stack_input(inputs@[s as int]@, passes@, n - 1),
                zero,
                times,
                plus,
                activation,
                passes@[n - 1],
            ));
        }
        let outs = match get_output_layer_node_value(
            &passes[n - 1].weighted,
            &targets[s],
            activation,
            derivative,
            cost_derivative,
            times,
        ) {
            Ok(v) => v,
            Err(_) => {
                proof {
                    assert(!sample_fits(w0, b0, inputs@[s as int]@.len() as int, targets@[s as int]@.len() as int));
                }
                return Err(MatrixError::ShapeMismatch);
            },
        };
        let mut weighted: Vec<Vec<T>> = Vec::with_capacity(n);
        let mut k: usize = 0;
        while k < n
            invariant
                n == passes@.len(),
                k <= n,
                weighted@.len() == k,
                forall|q: int| 0 <= q < k ==> (#[trigger] weighted@[q])@ == passes@[q].weighted@,
            decreases n - k,
        {
            weighted.push(copy_range(&passes[k].weighted, 0, passes[k].weighted.len()));
            k = k + 1;
        }
        proof {
            assert forall|j: int| 0 <= j < n - 1 implies #[trigger] back_step_fits(
                weights@,
                weighted@,
                outs@.len() as int,
                j,
            ) by {
                let above = n - 1 - j;
                assert(layer_fits(weights@, biases@, inputs@[s as int]@.len() as int, above));
                assert(is_forward(
                    weights@[above - 1],
                    biases@[above - 1],
                    stack_input(inputs@[s as int]@, passes@, above - 1),
                    zero,
                    times,
                    plus,
                    activation,
                    passes@[above - 1],
                ));
                assert(is_forward(
                    weights@[above],
                    biases@[above],
                    stack_input(inputs@[s as int]@, passes@, above),
                    zero,
                    times,
                    plus,
                    activation,
                    passes@[above],
                ));
                assert(weighted@[above - 1]@ == passes@[above - 1].weighted@);
                assert(weighted@[above]@ == passes@[above].weighted@);
            }
            assert(back_fits(weights@, weighted@, outs@.len() as int));
        }
        let nodes = match backward_node_values(weights, &weighted, &outs, zero, times, plus, derivative) {
            Ok(v) => v,
            Err(_) => {
                return Err(MatrixError::ShapeMismatch);
            },
        };
        let ghost old_gw = gw@;
        let ghost old_gb = gb@;
        let mut new_gw: Vec<Matrix<T>> = Vec::with_capacity(n);
        let mut new_gb: Vec<Matrix<T>> = Vec::with_capacity(n);
        let mut k: usize = 0;
        while k < n
            invariant
                n == weights@.len(),
                n >= 1,
                w0 == weights@,
                b0 == biases@,
                s < inputs@.len(),
                forall|x: T, y: T| times.requires((x, y)),
                forall|x: T, y: T| plus.requires((x, y)),
                is_stack_forward(w0, b0, inputs@[s as int]@, zero, times, plus, activation, passes@),
                is_backward(w0, weighted@, outs@, zero, times, plus, derivative, nodes@),
                outs@.len() == w0[n - 1].rows,
                forall|q: int| 0 <= q < n ==> (#[trigger] weighted@[q])@ == passes@[q].weighted@,
                old_gw.len() == n,
                old_gb.len() == n,
                forall|q: int|
                    0 <= q < n ==> (#[trigger] old_gw[q]).wf() && old_gw[q].same_shape(&weights@[q])
                        && old_gb[q].wf() && old_gb[q].rows == weights@[q].rows && old_gb[q].cols
                        == 1,
                k <= n,
                gw@ == old_gw.subrange(k as int, n as int),
                gb@ == old_gb.subrange(k as int, n as int),
                new_gw@.len() == k,
                new_gb@.len() == k,
                forall|q: int|
                    0 <= q < k ==> #[trigger] is_accumulated(
                        old_gw[q],
                        old_gb[q],
                        stack_input(inputs@[s as int]@, passes@, q),
                        nodes@[n - 1 - q]@,
                        times,
                        plus,
                        new_gw@[q],
                        new_gb@[q],
                    ),
            decreases n - k,
        {
            let mut w = gw.remove(0);
            let mut b = gb.remove(0);
            let x: &Vec<T> = if k == 0 {
                &inputs[s]
            } else {
                &passes[k - 1].outputs
            };
            proof {
                assert(w == old_gw[k as int] && b == old_gb[k as int]);
                assert(x@ == stack_input(inputs@[s as int]@, passes@, k as int));
                assert(is_forward(
                    w0[k as int],
                    b0[k as int],
                    stack_input(inputs@[s as int]@, passes@, k as int),
                    zero,
                    times,
                    plus,
                    activation,
                    passes@[k as int],
                ));
                if k + 1 < n {
                    let j = n - 2 - k;
                    assert(nodes@[j + 1]@.len() == weighted@[k as int]@.len());
                }
                assert(old_gw[k as int].wf());
                assert(gw@ =~= old_gw.subrange(k + 1, n as int));
                assert(gb@ =~= old_gb.subrange(k + 1, n as int));
            }
            update_gradients(&mut w, &mut b, x, &nodes[n - 1 - k], times, plus);
            new_gw.push(w);
            new_gb.push(b);
            k = k + 1;
        }
        proof {
            assert(sample_trace(
                w0,
                b0,
                inputs@[s as int]@,
                targets@[s as int]@,
                zero,
                times,
                plus,
                activation,
                derivative,
                cost_derivative,
                passes@,
                weighted@,
                nodes@,
            ));
            assert(all_accumulated(inputs@[s as int]@, passes@, nodes@, times, plus, old_gw, old_gb, new_gw@, new_gb@));
            assert(sample_fits(w0, b0, inputs@[s as int]@.len() as int, targets@[s as int]@.len() as int));
            let prev_gws = gws;
            let prev_gbs = gbs;
            gws = gws.push(new_gw@);
            gbs = gbs.push(new_gb@);
            assert(gws[s as int] == old_gw && gbs[s as int] == old_gb);
            assert forall|q: int| 0 <= q < s + 1 implies #[trigger] sample_step(
                w0,
                b0,
                inputs@[q]@,
                targets@[q]@,
                zero,
                times,
                plus,
                activation,
                derivative,
                cost_derivative,
                gws[q],
                gbs[q],
                gws[q + 1],
                gbs[q + 1],
            ) by {
                if q < s {
                    assert(gws[q] == prev_gws[q] && gws[q + 1] == prev_gws[q + 1]);
                    assert(gbs[q] == prev_gbs[q] && gbs[q + 1] == prev_gbs[q + 1]);
                }
            }
            assert(gws[0] == prev_gws[0] && gbs[0] == prev_gbs[0]);
            assert forall|q: int| 0 <= q < n implies (#[trigger] new_gw@[q]).wf() && new_gw@[q].same_shape(&weights@[q])
                && new_gb@[q].wf() && new_gb@[q].rows == weights@[q].rows && new_gb@[q].cols == 1 by {
                assert(is_accumulated(
                    old_gw[q],
                    old_gb[q],
                    stack_input(inputs@[s as int]@, passes@, q),
                    nodes@[n - 1 - q]@,
                    times,
                    plus,
                    new_gw@[q],
                    new_gb@[q],
                ));
            }
        }
        gw = new_gw;
        gb = new_gb;
        s = s + 1;
    }
    assert(batch_fits(w0, b0, inputs@, targets@));
    assert(batch_gradients(
        w0,
        b0,
        inputs@,
        targets@,
        zero,
        times,
        plus,
        activation,
        derivative,
        cost_derivative,
        gws,
        gbs,
    ));
    let mut new_w: Vec<Matrix<T>> = Vec::with_capacity(n);
    let mut new_b: Vec<Matrix<T>> = Vec::with_capacity(n);
    let mut k: usize = 0;
    while k < n
        invariant
            n == w0.len(),
            n == b0.len(),
            forall|q: int| 0 <= q < n ==> (#[trigger] b0[q]).rows == w0[q].rows && b0[q].cols == 1,
            forall|x: T, y: T| times.requires((x, y)),
            forall|x: T, y: T| minus.requires((x, y)),
            forall|q: int| 0 <= q < w0.len() ==> (#[trigger] w0[q]).wf(),
            forall|q: int| 0 <= q < b0.len() ==> (#[trigger] b0[q]).wf(),
            gw@.len() == n,
            gb@.len() == n,
            forall|q: int|
                0 <= q < n ==> (#[trigger] gw@[q]).wf() && gw@[q].same_shape(&w0[q]) && gb@[q].wf()
                    && gb@[q].rows == w0[q].rows && gb@[q].cols == 1,
            k <= n,
            weights@ == w0.subrange(k as int, n as int),
            biases@ == b0.subrange(k as int, n as int),
            new_w@.len() == k,
            new_b@.len() == k,
            forall|q: int|
                0 <= q < k ==> #[trigger] is_applied(w0[q], gw@[q], rate, times, minus, new_w@[q])
                    && is_applied(b0[q], gb@[q], rate, times, minus, new_b@[q]),
        decreases n - k,
    {
        let mut w = weights.remove(0);
        let mut b = biases.remove(0);
        proof {
            assert(w == w0[k as int]);
            assert(b == b0[k as int]);
        }
        apply_gradients(&mut w, &mut b, &gw[k], &gb[k], rate, times, minus);
        new_w.push(w);
        new_b.push(b);
        k = k + 1;
    }
    *weights = new_w;
    *biases = new_b;
    Ok(())
}

} // verus!

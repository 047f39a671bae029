use vstd::prelude::*;

use crate::bytes::copy_range;
use crate::matrix::{dot_step, dot_sums, is_dot, Matrix, MatrixError};

verus! {

/// What a forward pass through one layer leaves: the weighted sums of its
/// units before the activation, and its outputs after it.
pub struct Forward<T> {
    pub weighted: Vec<T>,
    pub outputs: Vec<T>,
}

/// `weighted` and `output` are what unit `i` of the layer computes from
/// `inputs`: its weighted sum plus its bias, then the activation of that.
pub open spec fn unit_output<T: Copy, F: Fn(T, T) -> T, G: Fn(T, T) -> T, H: Fn(T) -> T>(
    weights: Matrix<T>,
    biases: Matrix<T>,
    inputs: Seq<T>,
    zero: T,
    times: F,
    plus: G,
    activation: H,
    i: int,
    weighted: T,
    output: T,
) -> bool {
    &&& exists|d: T|
        #[trigger] is_dot(times, plus, zero, weights.data@[i]@, inputs, d) && plus.ensures(
            (d, biases.at(i, 0)),
            weighted,
        )
    &&& activation.ensures((weighted,), output)
}

/// `f` is the forward pass of the layer with `weights` and `biases` on `inputs`.
pub open spec fn is_forward<T: Copy, F: Fn(T, T) -> T, G: Fn(T, T) -> T, H: Fn(T) -> T>(
    weights: Matrix<T>,
    biases: Matrix<T>,
    inputs: Seq<T>,
    zero: T,
    times: F,
    plus: G,
    activation: H,
    f: Forward<T>,
) -> bool {
    &&& weights.cols == inputs.len()
    &&& biases.rows == weights.rows && biases.cols == 1
    &&& f.weighted@.len() == weights.rows
    &&& f.outputs@.len() == weights.rows
    &&& forall|i: int|
        0 <= i < weights.rows ==> #[trigger] unit_output(
            weights,
            biases,
            inputs,
            zero,
            times,
            plus,
            activation,
            i,
            f.weighted@[i],
            f.outputs@[i],
        )
}

/// Layer `k` of a stack fits: it takes as many inputs as the layer below
/// has units (the first, `input_len`), and has one bias per unit.
pub open spec fn layer_fits<T: Copy>(
    weights: Seq<Matrix<T>>,
    biases: Seq<Matrix<T>>,
    input_len: int,
    k: int,
) -> bool {
    &&& weights[k].cols == if k == 0 {
        input_len
    } else {
        weights[k - 1].rows as int
    }
    &&& biases[k].rows == weights[k].rows
    &&& biases[k].cols == 1
}

/// Every layer of the stack fits.
pub open spec fn stack_fits<T: Copy>(
    weights: Seq<Matrix<T>>,
    biases: Seq<Matrix<T>>,
    input_len: int,
) -> bool {
    &&& weights.len() == biases.len()
    &&& forall|k: int| 0 <= k < weights.len() ==> #[trigger] layer_fits(weights, biases, input_len, k)
}

/// What layer `k` of a stack takes in: the input for the first, the outputs
/// of the layer below for the others.
pub open spec fn stack_input<T>(input: Seq<T>, passes: Seq<Forward<T>>, k: int) -> Seq<T> {
    if k == 0 {
        input
    } else {
        passes[k - 1].outputs@
    }
}

/// The forward pass of a stack of layers: each layer's outputs are the next
/// one's inputs. The passes come back layer by layer.
pub fn feed_forwards<T: Copy, F: Fn(T, T) -> T + Copy, G: Fn(T, T) -> T + Copy, H: Fn(T) -> T + Copy>(
    weights: &Vec<Matrix<T>>,
    biases: &Vec<Matrix<T>>,
    input: &Vec<T>,
    zero: T,
    times: F,
    plus: G,
    activation: H,
) -> (r: Result<Vec<Forward<T>>, MatrixError>)
    requires
        forall|k: int| 0 <= k < weights@.len() ==> (#[trigger] weights@[k]).wf(),
        forall|k: int| 0 <= k < biases@.len() ==> (#[trigger] biases@[k]).wf(),
        forall|x: T, y: T| times.requires((x, y)),
        forall|x: T, y: T| plus.requires((x, y)),
        forall|x: T| activation.requires((x,)),
    ensures
        match r {
            Ok(passes) => stack_fits(weights@, biases@, input@.len() as int) && is_stack_forward(
                weights@,
                biases@,
                input@,
                zero,
                times,
                plus,
                activation,
                passes@,
            ),
            Err(e) => e == MatrixError::ShapeMismatch && !stack_fits(
                weights@,
                biases@,
                input@.len() as int,
            ),
        },
{
    let ghost input_seq = input@;
    if weights.len() != biases.len() {
        return Err(MatrixError::ShapeMismatch);
    }
    let n = weights.len();
    let mut passes: Vec<Forward<T>> = Vec::with_capacity(n);
    let mut current = copy_range(input, 0, input.len());
    assert(current@ =~= input_seq);
    let mut k: usize = 0;
    while k < n
        invariant
            n == weights@.len(),
            n == biases@.len(),
            forall|q: int| 0 <= q < weights@.len() ==> (#[trigger] weights@[q]).wf(),
            forall|q: int| 0 <= q < biases@.len() ==> (#[trigger] biases@[q]).wf(),
            forall|x: T, y: T| times.requires((x, y)),
            forall|x: T, y: T| plus.requires((x, y)),
            forall|x: T| activation.requires((x,)),
            input_seq == input@,
            k <= n,
            passes@.len() == k,
            current@ == stack_input(input_seq, passes@, k as int),
            forall|q: int| 0 <= q < k ==> #[trigger] layer_fits(weights@, biases@, input_seq.len() as int, q),
            forall|q: int|
                0 <= q < k ==> is_forward(
                    weights@[q],
                    biases@[q],
                    stack_input(input_seq, passes@, q),
                    zero,
                    times,
                    plus,
                    activation,
                    #[trigger] passes@[q],
                ),
        decreases n - k,
    {
        let ghost before = passes@;
        let ghost current_seq = current@;
        match compute_output(&weights[k], &biases[k], current, zero, times, plus, activation) {
            Ok(f) => {
                let next = copy_range(&f.outputs, 0, f.outputs.len());
                assert(next@ =~= f.outputs@);
                passes.push(f);
                proof {
                    assert(layer_fits(weights@, biases@, input_seq.len() as int, k as int));
                    assert forall|q: int| 0 <= q < k + 1 implies is_forward(
                        weights@[q],
                        biases@[q],
                        stack_input(input_seq, passes@, q),
                        zero,
                        times,
                        plus,
                        activation,
                        #[trigger] passes@[q],
                    ) by {
                        assert(passes@[q] == if q < k { before[q] } else { f });
                        if q > 0 {
                            assert(passes@[q - 1] == if q - 1 < k { before[q - 1] } else { f });
                        }
                        assert(stack_input(input_seq, passes@, q) == if q == k {
                            current_seq
                        } else {
                            stack_input(input_seq, before, q)
                        });
                    }
                }
                current = next;
            },
            Err(_) => {
                proof {
                    if k > 0 {
                        assert(is_forward(
                            weights@[k - 1],
                            biases@[k - 1],
                            stack_input(input_seq, passes@, k - 1),
                            zero,
                            times,
                            plus,
                            activation,
                            passes@[k - 1],
                        ));
                    }
                    assert(!layer_fits(weights@, biases@, input_seq.len() as int, k as int));
                    assert(!stack_fits(weights@, biases@, input_seq.len() as int));
                }
                return Err(MatrixError::ShapeMismatch);
            },
        }
        k = k + 1;
    }
    Ok(passes)
}

/// The forward pass of a fully-connected layer: `weights` has one row per
/// unit and one column per input, `biases` one row per unit.
pub fn compute_output<T: Copy, F: Fn(T, T) -> T, G: Fn(T, T) -> T + Copy, H: Fn(T) -> T>(
    weights: &Matrix<T>,
    biases: &Matrix<T>,
    inputs: Vec<T>,
    zero: T,
    times: F,
    plus: G,
    activation: H,
) -> (r: Result<Forward<T>, MatrixError>)
    requires
        weights.wf(),
        biases.wf(),
        forall|x: T, y: T| times.requires((x, y)),
        forall|x: T, y: T| plus.requires((x, y)),
        forall|x: T| activation.requires((x,)),
    ensures
        match r {
            Ok(f) => is_forward(*weights, *biases, inputs@, zero, times, plus, activation, f),
            Err(e) => e == MatrixError::ShapeMismatch && !(weights.cols == inputs@.len()
                && biases.rows == weights.rows && biases.cols == 1),
        },
{
    let ghost input_seq = inputs@;
    let row = match Matrix::from(vec![inputs]) {
        Ok(m) => m,
        Err(e) => {
            return Err(e);
        },
    };
    assert(row.data@[0]@ == input_seq);
    let column = row.transpose();
    assert(column.column(0) =~= input_seq) by {
        assert forall|k: int| 0 <= k < input_seq.len() implies column.column(0)[k]
            == input_seq[k] by {
            assert(column.at(k, 0) == row.at(0, k));
        }
    }
    let product = match weights.multiply(&column, zero, times, plus) {
        Ok(m) => m,
        Err(e) => {
            return Err(e);
        },
    };
    let summed = match product.add(biases, plus) {
        Ok(m) => m,
        Err(e) => {
            return Err(e);
        },
    };
    let activated = summed.map(activation);
    let mut weighted: Vec<T> = Vec::with_capacity(weights.rows);
    let mut outputs: Vec<T> = Vec::with_capacity(weights.rows);
    let mut i: usize = 0;
    while i < weights.rows
        invariant
            weights.wf(),
            biases.wf(),
            column.cols == 1,
            product.rows == weights.rows && product.cols == 1,
            summed.wf(),
            activated.wf(),
            summed.rows == weights.rows && summed.cols == 1,
            activated.rows == weights.rows && activated.cols == 1,
            weights.cols == input_seq.len(),
            biases.rows == weights.rows && biases.cols == 1,
            column.column(0) == input_seq,
            weights.is_product(&column, zero, times, plus, &product),
            forall|a: int, b: int|
                0 <= a < product.rows && 0 <= b < product.cols ==> plus.ensures(
                    (product.at(a, b), biases.at(a, b)),
                    #[trigger] summed.at(a, b),
                ),
            forall|a: int, b: int|
                0 <= a < summed.rows && 0 <= b < summed.cols ==> activation.ensures(
                    (summed.at(a, b),),
                    #[trigger] activated.at(a, b),
                ),
            i <= weights.rows,
            weighted@.len() == i,
            outputs@.len() == i,
            forall|k: int|
                0 <= k < i ==> #[trigger] unit_output(
                    *weights,
                    *biases,
                    input_seq,
                    zero,
                    times,
                    plus,
                    activation,
                    k,
                    weighted@[k],
                    outputs@[k],
                ),
        decreases weights.rows - i,
    {
        let w = summed.data[i][0];
        let o = activated.data[i][0];
        proof {
            assert(is_dot(
                times,
                plus,
                zero,
                weights.data@[i as int]@,
                column.column(0),
                product.at(i as int, 0),
            ));
            assert(w == summed.at(i as int, 0) && o == activated.at(i as int, 0));
            assert(plus.ensures((product.at(i as int, 0), biases.at(i as int, 0)), w));
            assert(activation.ensures((w,), o));
        }
        weighted.push(w);
        outputs.push(o);
        i = i + 1;
    }
    Ok(Forward { weighted, outputs })
}

proof fn lemma_zero_sums<T, F: Fn(T, T) -> T, G: Fn(T, T) -> T>(
    times: F,
    plus: G,
    zero: T,
    a: Seq<T>,
    b: Seq<T>,
    sums: Seq<T>,
    k: int,
)
    requires
        forall|q: int| 0 <= q < a.len() ==> a[q] == zero,
        forall|x: T, p: T| times.ensures((zero, x), p) ==> p == zero,
        forall|p: T| plus.ensures((zero, zero), p) ==> p == zero,
        dot_sums(times, plus, zero, a, b, sums),
        0 <= k <= a.len(),
    ensures
        sums[k] == zero,
    decreases k,
{
    if k > 0 {
        let q = k - 1;
        lemma_zero_sums(times, plus, zero, a, b, sums, q);
        assert(dot_step(times, plus, a[q], b[q], sums[q], sums[q + 1]));
        let p = choose|p: T| #[trigger]
            times.ensures((a[q], b[q]), p) && plus.ensures((sums[q], p), sums[q + 1]);
        assert(p == zero);
    }
}

/// `r` is the node value of an output unit: the derivative of the activation
/// at its weighted sum times the derivative of the cost at its output and
/// target.
pub open spec fn output_node_value<T, A: Fn(T) -> T, D: Fn(T) -> T, C: Fn(T, T) -> T, F: Fn(T, T) -> T>(
    activation: A,
    derivative: D,
    cost_derivative: C,
    times: F,
    weighted: T,
    target: T,
    r: T,
) -> bool {
    exists|out: T, c: T, g: T|
        #[trigger] activation.ensures((weighted,), out) && #[trigger] cost_derivative.ensures(
            (out, target),
            c,
        ) && #[trigger] derivative.ensures((weighted,), g) && times.ensures((g, c), r)
}

/// The node values of the output layer, from the weighted sums of its units
/// and the targets; one target for each unit.
pub fn get_output_layer_node_value<T: Copy, A: Fn(T) -> T, D: Fn(T) -> T, C: Fn(T, T) -> T, F: Fn(T, T) -> T>(
    weighted: &Vec<T>,
    targets: &Vec<T>,
    activation: A,
    derivative: D,
    cost_derivative: C,
    times: F,
) -> (r: Result<Vec<T>, MatrixError>)
    requires
        forall|x: T| activation.requires((x,)),
        forall|x: T| derivative.requires((x,)),
        forall|x: T, y: T| cost_derivative.requires((x, y)),
        forall|x: T, y: T| times.requires((x, y)),
    ensures
        match r {
            Ok(v) => is_output_nodes(
                weighted@,
                targets@,
                activation,
                derivative,
                cost_derivative,
                times,
                v@,
            ),
            Err(e) => e == MatrixError::ShapeMismatch && targets@.len() != weighted@.len(),
        },
{
    let n = weighted.len();
    if targets.len() != n {
        return Err(MatrixError::ShapeMismatch);
    }
    let mut r: Vec<T> = Vec::with_capacity(n);
    let mut i: usize = 0;
    while i < n
        invariant
            n == weighted@.len(),
            n == targets@.len(),
            forall|x: T| activation.requires((x,)),
            forall|x: T| derivative.requires((x,)),
            forall|x: T, y: T| cost_derivative.requires((x, y)),
            forall|x: T, y: T| times.requires((x, y)),
            i <= n,
            r@.len() == i,
            forall|k: int|
                0 <= k < i ==> output_node_value(
                    activation,
                    derivative,
                    cost_derivative,
                    times,
                    weighted@[k],
                    targets@[k],
                    #[trigger] r@[k],
                ),
        decreases n - i,
    {
        let out = activation(weighted[i]);
        let c = cost_derivative(out, targets[i]);
        let g = derivative(weighted[i]);
        let v = times(g, c);
        r.push(v);
        i = i + 1;
    }
    Ok(r)
}

/// `r` is the node value of a hidden unit: the dot product of the weights
/// leaving it with the node values they reach, times the derivative of the
/// activation at its weighted sum.
pub open spec fn hidden_node_value<T, F: Fn(T, T) -> T, G: Fn(T, T) -> T, H: Fn(T) -> T>(
    outgoing: Seq<T>,
    next_node_values: Seq<T>,
    weighted: T,
    zero: T,
    times: F,
    plus: G,
    derivative: H,
    r: T,
) -> bool {
    exists|d: T, g: T|
        #[trigger] is_dot(times, plus, zero, outgoing, next_node_values, d)
            && #[trigger] derivative.ensures((weighted,), g) && times.ensures((d, g), r)
}

/// The node values of a hidden layer, from the weights of the layer above
/// it (one row per unit above, one column per unit here), the node values of
/// that layer, and the weighted sums of this one. Unit `i` sums over column
/// `i` of those weights.
pub fn get_hidden_layer_node_value<T: Copy, F: Fn(T, T) -> T + Copy, G: Fn(T, T) -> T + Copy, H: Fn(T) -> T>(
    next_weights: &Matrix<T>,
    next_node_values: Vec<T>,
    weighted: &Vec<T>,
    zero: T,
    times: F,
    plus: G,
    derivative: H,
) -> (r: Result<Vec<T>, MatrixError>)
    requires
        next_weights.wf(),
        forall|x: T, y: T| times.requires((x, y)),
        forall|x: T, y: T| plus.requires((x, y)),
        forall|x: T| derivative.requires((x,)),
    ensures
        match r {
            Ok(v) => {
                &&& next_weights.rows == next_node_values@.len()
                &&& next_weights.cols == weighted@.len()
                &&& v@.len() == weighted@.len()
                &&& forall|i: int|
                    0 <= i < weighted@.len() ==> hidden_node_value(
                        next_weights.column(i),
                        next_node_values@,
                        weighted@[i],
                        zero,
                        times,
                        plus,
                        derivative,
                        #[trigger] v@[i],
                    )
            },
            Err(e) => e == MatrixError::ShapeMismatch && !(next_weights.rows
                == next_node_values@.len() && next_weights.cols == weighted@.len()),
        },
{
    if next_weights.cols != weighted.len() {
        return Err(MatrixError::ShapeMismatch);
    }
    let ghost nodes = next_node_values@;
    let row = match Matrix::from(vec![next_node_values]) {
        Ok(m) => m,
        Err(e) => {
            return Err(e);
        },
    };
    assert(row.data@[0]@ == nodes);
    let column = row.transpose();
    assert(column.column(0) =~= nodes) by {
        assert forall|k: int| 0 <= k < nodes.len() implies column.column(0)[k] == nodes[k] by {
            assert(column.at(k, 0) == row.at(0, k));
        }
    }
    let transposed = next_weights.transpose();
    let back = match transposed.multiply(&column, zero, times, plus) {
        Ok(m) => m,
        Err(e) => {
            return Err(e);
        },
    };
    let n = weighted.len();
    let mut r: Vec<T> = Vec::with_capacity(n);
    let mut i: usize = 0;
    while i < n
        invariant
            n == weighted@.len(),
            next_weights.wf(),
            next_weights.cols == n,
            next_weights.is_transpose(&transposed),
            transposed.is_product(&column, zero, times, plus, &back),
            column.column(0) == nodes,
            column.cols == 1,
            forall|x: T, y: T| times.requires((x, y)),
            forall|x: T| derivative.requires((x,)),
            i <= n,
            r@.len() == i,
            forall|k: int|
                0 <= k < i ==> hidden_node_value(
                    next_weights.column(k),
                    nodes,
                    weighted@[k],
                    zero,
                    times,
                    plus,
                    derivative,
                    #[trigger] r@[k],
                ),
        decreases n - i,
    {
        let d = back.data[i][0];
        let g = derivative(weighted[i]);
        let v = times(d, g);
        proof {
            assert(transposed.data@[i as int]@ =~= next_weights.column(i as int)) by {
                assert forall|k: int| 0 <= k < next_weights.rows implies transposed.data@[i as int]@[k]
                    == next_weights.column(i as int)[k] by {
                    assert(transposed.at(i as int, k) == next_weights.at(k, i as int));
                }
            }
            assert(d == back.at(i as int, 0));
            assert(is_dot(times, plus, zero, transposed.data@[i as int]@, column.column(0), d));
            assert(hidden_node_value(
                next_weights.column(i as int),
                nodes,
                weighted@[i as int],
                zero,
                times,
                plus,
                derivative,
                v,
            ));
        }
        r.push(v);
        i = i + 1;
    }
    Ok(r)
}

/// Step `j` of the backward pass fits: the layer `j` places below the output
/// layer has as many inputs as the layer below it has weighted sums, and as
/// many units as there are node values from the step before.
pub open spec fn back_step_fits<T: Copy>(
    weights: Seq<Matrix<T>>,
    weighted: Seq<Vec<T>>,
    output_len: int,
    j: int,
) -> bool {
    let above = weights.len() - 1 - j;
    &&& weights[above].cols == weighted[above - 1]@.len()
    &&& weights[above].rows == if j == 0 {
        output_len
    } else {
        weighted[above]@.len() as int
    }
}

/// Every step of the backward pass fits, over a stack of at least one layer.
pub open spec fn back_fits<T: Copy>(
    weights: Seq<Matrix<T>>,
    weighted: Seq<Vec<T>>,
    output_len: int,
) -> bool {
    &&& weights.len() >= 1
    &&& weighted.len() == weights.len()
    &&& forall|j: int|
        0 <= j < weights.len() - 1 ==> #[trigger] back_step_fits(weights, weighted, output_len, j)
}

/// The backward pass over a stack of layers, given the weighted sums of
/// every layer and the node values of the output layer. The node values come
/// back from the output layer down: entry `j` belongs to the layer `j`
/// places below the output layer, and each hidden layer's values come from
/// the weights and node values of the layer above it.
pub fn backward_node_values<T: Copy, F: Fn(T, T) -> T + Copy, G: Fn(T, T) -> T + Copy, H: Fn(T) -> T + Copy>(
    weights: &Vec<Matrix<T>>,
    weighted: &Vec<Vec<T>>,
    output_nodes: &Vec<T>,
    zero: T,
    times: F,
    plus: G,
    derivative: H,
) -> (r: Result<Vec<Vec<T>>, MatrixError>)
    requires
        forall|k: int| 0 <= k < weights@.len() ==> (#[trigger] weights@[k]).wf(),
        forall|x: T, y: T| times.requires((x, y)),
        forall|x: T, y: T| plus.requires((x, y)),
        forall|x: T| derivative.requires((x,)),
    ensures
        match r {
            Ok(v) => back_fits(weights@, weighted@, output_nodes@.len() as int) && is_backward(
                weights@,
                weighted@,
                output_nodes@,
                zero,
                times,
                plus,
                derivative,
                v@,
            ),
            Err(e) => e == MatrixError::ShapeMismatch && !back_fits(
                weights@,
                weighted@,
                output_nodes@.len() as int,
            ),
        },
{
    let n = weights.len();
    if n == 0 || weighted.len() != n {
        return Err(MatrixError::ShapeMismatch);
    }
    let ghost out_len = output_nodes@.len() as int;
    let mut v: Vec<Vec<T>> = Vec::with_capacity(n);
    let first = copy_range(output_nodes, 0, output_nodes.len());
    let mut current = copy_range(output_nodes, 0, output_nodes.len());
    v.push(first);
    let mut j: usize = 0;
    while j + 1 < n
        invariant
            n == weights@.len(),
            n == weighted@.len(),
            n >= 1,
            out_len == output_nodes@.len(),
            forall|k: int| 0 <= k < weights@.len() ==> (#[trigger] weights@[k]).wf(),
            forall|x: T, y: T| times.requires((x, y)),
            forall|x: T, y: T| plus.requires((x, y)),
            forall|x: T| derivative.requires((x,)),
            j + 1 <= n,
            v@.len() == j + 1,
            v@[0]@ == output_nodes@,
            current@ == v@[j as int]@,
            current@.len() == if j == 0 {
                out_len
            } else {
                weighted@[n - 1 - j]@.len() as int
            },
            forall|q: int| 0 <= q < j ==> #[trigger] back_step_fits(weights@, weighted@, out_len, q),
            forall|q: int|
                0 <= q < j ==> {
                    let below = n - 2 - q;
                    &&& (#[trigger] v@[q + 1])@.len() == weighted@[below]@.len()
                    &&& forall|i: int|
                        0 <= i < weighted@[below]@.len() ==> hidden_node_value(
                            weights@[below + 1].column(i),
                            v@[q]@,
                            weighted@[below]@[i],
                            zero,
                            times,
                            plus,
                            derivative,
                            #[trigger] v@[q + 1]@[i],
                        )
                },
        decreases n - j,
    {
        let above = n - 1 - j;
        let ghost before = v@;
        let ghost current_seq = current@;
        match get_hidden_layer_node_value(
            &weights[above],
            current,
            &weighted[above - 1],
            zero,
            times,
            plus,
            derivative,
        ) {
            Ok(values) => {
                let next = copy_range(&values, 0, values.len());
                v.push(values);
                proof {
                    assert(back_step_fits(weights@, weighted@, out_len, j as int));
                    assert forall|q: int| 0 <= q < j + 1 implies {
                        let below = n - 2 - q;
                        &&& (#[trigger] v@[q + 1])@.len() == weighted@[below]@.len()
                        &&& forall|i: int|
                            0 <= i < weighted@[below]@.len() ==> hidden_node_value(
                                weights@[below + 1].column(i),
                                v@[q]@,
                                weighted@[below]@[i],
                                zero,
                                times,
                                plus,
                                derivative,
                                #[trigger] v@[q + 1]@[i],
                            )
                    } by {
                        assert(v@[q] == before[q]);
                        if q < j {
                            assert(v@[q + 1] == before[q + 1]);
                        }
                    }
                }
                current = next;
            },
            Err(_) => {
                proof {
                    assert(!back_step_fits(weights@, weighted@, out_len, j as int));
                }
                return Err(MatrixError::ShapeMismatch);
            },
        }
        j = j + 1;
    }
    Ok(v)
}

/// `passes` are the forward passes of every layer of the stack, each layer
/// taking in what the one below put out.
pub open spec fn is_stack_forward<T: Copy, F: Fn(T, T) -> T, G: Fn(T, T) -> T, H: Fn(T) -> T>(
    weights: Seq<Matrix<T>>,
    biases: Seq<Matrix<T>>,
    input: Seq<T>,
    zero: T,
    times: F,
    plus: G,
    activation: H,
    passes: Seq<Forward<T>>,
) -> bool {
    &&& passes.len() == weights.len()
    &&& forall|k: int|
        0 <= k < passes.len() ==> is_forward(
            weights[k],
            biases[k],
            stack_input(input, passes, k),
            zero,
            times,
            plus,
            activation,
            #[trigger] passes[k],
        )
}

/// `v` are the node values of an output layer with these weighted sums and targets.
pub open spec fn is_output_nodes<T, A: Fn(T) -> T, D: Fn(T) -> T, C: Fn(T, T) -> T, F: Fn(T, T) -> T>(
    weighted: Seq<T>,
    targets: Seq<T>,
    activation: A,
    derivative: D,
    cost_derivative: C,
    times: F,
    v: Seq<T>,
) -> bool {
    &&& targets.len() == weighted.len()
    &&& v.len() == weighted.len()
    &&& forall|i: int|
        0 <= i < weighted.len() ==> output_node_value(
            activation,
            derivative,
            cost_derivative,
            times,
            weighted[i],
            targets[i],
            #[trigger] v[i],
        )
}

/// `v` are the node values of a stack from the output layer down: `v[0]` is
/// `output`, and entry `j + 1` belongs to the layer below that of entry `j`.
pub open spec fn is_backward<T: Copy, F: Fn(T, T) -> T, G: Fn(T, T) -> T, H: Fn(T) -> T>(
    weights: Seq<Matrix<T>>,
    weighted: Seq<Vec<T>>,
    output: Seq<T>,
    zero: T,
    times: F,
    plus: G,
    derivative: H,
    v: Seq<Vec<T>>,
) -> bool {
    &&& v.len() == weights.len()
    &&& v[0]@ == output
    &&& forall|j: int|
        0 <= j < v.len() - 1 ==> {
            let below = weights.len() - 2 - j;
            &&& (#[trigger] v[j + 1])@.len() == weighted[below]@.len()
            &&& forall|i: int|
                0 <= i < weighted[below]@.len() ==> hidden_node_value(
                    weights[below + 1].column(i),
                    v[j]@,
                    weighted[below]@[i],
                    zero,
                    times,
                    plus,
                    derivative,
                    #[trigger] v[j + 1]@[i],
                )
        }
}

/// `gw` and `gb` are the accumulators `old_w` and `old_b` with one sample
/// added: the product of input `j` and node value `i` at weight `(i, j)`,
/// node value `i` at bias `i`.
pub open spec fn is_accumulated<T: Copy, F: Fn(T, T) -> T, G: Fn(T, T) -> T>(
    old_w: Matrix<T>,
    old_b: Matrix<T>,
    inputs: Seq<T>,
    node_values: Seq<T>,
    times: F,
    plus: G,
    gw: Matrix<T>,
    gb: Matrix<T>,
) -> bool {
    &&& gw.wf()
    &&& gb.wf()
    &&& gw.same_shape(&old_w)
    &&& gb.same_shape(&old_b)
    &&& forall|i: int, j: int|
        0 <= i < node_values.len() && 0 <= j < inputs.len() ==> #[trigger] dot_step(
            times,
            plus,
            inputs[j],
            node_values[i],
            old_w.at(i, j),
            gw.at(i, j),
        )
    &&& forall|i: int|
        0 <= i < node_values.len() ==> plus.ensures(
            (old_b.at(i, 0), node_values[i]),
            #[trigger] gb.at(i, 0),
        )
}

/// `m` is `old` minus `rate` times `grad`, element by element.
pub open spec fn is_applied<T: Copy, F: Fn(T, T) -> T, M: Fn(T, T) -> T>(
    old: Matrix<T>,
    grad: Matrix<T>,
    rate: T,
    times: F,
    minus: M,
    m: Matrix<T>,
) -> bool {
    &&& m.wf()
    &&& m.same_shape(&old)
    &&& forall|i: int, j: int|
        0 <= i < old.rows && 0 <= j < old.cols ==> #[trigger] dot_step(
            times,
            minus,
            grad.at(i, j),
            rate,
            old.at(i, j),
            m.at(i, j),
        )
}

/// Applies accumulated gradients: each weight and bias loses `rate` times
/// its gradient.
pub fn apply_gradients<T: Copy, F: Fn(T, T) -> T + Copy, M: Fn(T, T) -> T + Copy>(
    weights: &mut Matrix<T>,
    biases: &mut Matrix<T>,
    grad_w: &Matrix<T>,
    grad_b: &Matrix<T>,
    rate: T,
    times: F,
    minus: M,
)
    requires
        old(weights).wf(),
        old(biases).wf(),
        grad_w.wf(),
        grad_b.wf(),
        old(weights).same_shape(grad_w),
        old(biases).same_shape(grad_b),
        forall|x: T, y: T| times.requires((x, y)),
        forall|x: T, y: T| minus.requires((x, y)),
    ensures
        is_applied(*old(weights), *grad_w, rate, times, minus, *final(weights)),
        is_applied(*old(biases), *grad_b, rate, times, minus, *final(biases)),
{
    *weights = apply_one(weights, grad_w, rate, times, minus);
    *biases = apply_one(biases, grad_b, rate, times, minus);
}

fn apply_one<T: Copy, F: Fn(T, T) -> T + Copy, M: Fn(T, T) -> T + Copy>(
    m: &Matrix<T>,
    grad: &Matrix<T>,
    rate: T,
    times: F,
    minus: M,
) -> (r: Matrix<T>)
    requires
        m.wf(),
        grad.wf(),
        m.same_shape(grad),
        forall|x: T, y: T| times.requires((x, y)),
        forall|x: T, y: T| minus.requires((x, y)),
    ensures
        is_applied(*m, *grad, rate, times, minus, r),
{
    let mut data: Vec<Vec<T>> = Vec::with_capacity(m.rows);
    let mut i: usize = 0;
    while i < m.rows
        invariant
            m.wf(),
            grad.wf(),
            m.same_shape(grad),
            forall|x: T, y: T| times.requires((x, y)),
            forall|x: T, y: T| minus.requires((x, y)),
            i <= m.rows,
            data@.len() == i,
            forall|k: int| 0 <= k < i ==> (#[trigger] data@[k])@.len() == m.cols,
            forall|k: int, j: int|
                0 <= k < i && 0 <= j < m.cols ==> #[trigger] dot_step(
                    times,
                    minus,
                    grad.at(k, j),
                    rate,
                    m.at(k, j),
                    data@[k]@[j],
                ),
        decreases m.rows - i,
    {
        let mut row: Vec<T> = Vec::with_capacity(m.cols);
        let mut j: usize = 0;
        while j < m.cols
            invariant
                m.wf(),
                grad.wf(),
                m.same_shape(grad),
                forall|x: T, y: T| times.requires((x, y)),
                forall|x: T, y: T| minus.requires((x, y)),
                i < m.rows,
                j <= m.cols,
                row@.len() == j,
                forall|q: int|
                    0 <= q < j ==> #[trigger] dot_step(
                        times,
                        minus,
                        grad.at(i as int, q),
                        rate,
                        m.at(i as int, q),
                        row@[q],
                    ),
            decreases m.cols - j,
        {
            let s = times(grad.data[i][j], rate);
            let v = minus(m.data[i][j], s);
            proof {
                assert(times.ensures((grad.at(i as int, j as int), rate), s));
            }
            row.push(v);
            assert(dot_step(times, minus, grad.at(i as int, j as int), rate, m.at(i as int, j as int), row@[j as int]));
            j = j + 1;
        }
        data.push(row);
        i = i + 1;
    }
    Matrix { rows: m.rows, cols: m.cols, data }
}

/// Adds one sample's gradients to the accumulators of a layer: the product
/// of input `j` and node value `i` to weight gradient `(i, j)`, node value
/// `i` to bias gradient `i`.
pub fn update_gradients<T: Copy, F: Fn(T, T) -> T, G: Fn(T, T) -> T>(
    grad_w: &mut Matrix<T>,
    grad_b: &mut Matrix<T>,
    inputs: &Vec<T>,
    node_values: &Vec<T>,
    times: F,
    plus: G,
)
    requires
        old(grad_w).wf(),
        old(grad_b).wf(),
        old(grad_w).rows == node_values@.len(),
        old(grad_w).cols == inputs@.len(),
        old(grad_b).rows == node_values@.len(),
        old(grad_b).cols == 1,
        forall|x: T, y: T| times.requires((x, y)),
        forall|x: T, y: T| plus.requires((x, y)),
    ensures
        is_accumulated(
            *old(grad_w),
            *old(grad_b),
            inputs@,
            node_values@,
            times,
            plus,
            *final(grad_w),
            *final(grad_b),
        ),
{
    let rows = node_values.len();
    let cols = inputs.len();
    let mut w_data: Vec<Vec<T>> = Vec::with_capacity(rows);
    let mut b_data: Vec<Vec<T>> = Vec::with_capacity(rows);
    let mut i: usize = 0;
    while i < rows
        invariant
            grad_w.wf(),
            grad_b.wf(),
            grad_w.rows == rows && grad_w.cols == cols,
            grad_b.rows == rows && grad_b.cols == 1,
            rows == node_values@.len(),
            cols == inputs@.len(),
            forall|x: T, y: T| times.requires((x, y)),
            forall|x: T, y: T| plus.requires((x, y)),
            i <= rows,
            w_data@.len() == i,
            b_data@.len() == i,
            forall|k: int| 0 <= k < i ==> (#[trigger] w_data@[k])@.len() == cols,
            forall|k: int| 0 <= k < i ==> (#[trigger] b_data@[k])@.len() == 1,
            forall|k: int, j: int|
                0 <= k < i && 0 <= j < cols ==> #[trigger] dot_step(
                    times,
                    plus,
                    inputs@[j],
                    node_values@[k],
                    grad_w.at(k, j),
                    w_data@[k]@[j],
                ),
            forall|k: int|
                0 <= k < i ==> plus.ensures(
                    (grad_b.at(k, 0), node_values@[k]),
                    #[trigger] b_data@[k]@[0],
                ),
        decreases rows - i,
    {
        let mut row: Vec<T> = Vec::with_capacity(cols);
        let mut j: usize = 0;
        while j < cols
            invariant
                grad_w.wf(),
                grad_w.rows == rows && grad_w.cols == cols,
                rows == node_values@.len(),
                cols == inputs@.len(),
                forall|x: T, y: T| times.requires((x, y)),
                forall|x: T, y: T| plus.requires((x, y)),
                i < rows,
                j <= cols,
                row@.len() == j,
                forall|q: int|
                    0 <= q < j ==> #[trigger] dot_step(
                        times,
                        plus,
                        inputs@[q],
                        node_values@[i as int],
                        grad_w.at(i as int, q),
                        row@[q],
                    ),
            decreases cols - j,
        {
            let p = times(inputs[j], node_values[i]);
            let v = plus(grad_w.data[i][j], p);
            proof {
                assert(times.ensures((inputs@[j as int], node_values@[i as int]), p));
            }
            row.push(v);
            assert(dot_step(
                times,
                plus,
                inputs@[j as int],
                node_values@[i as int],
                grad_w.at(i as int, j as int),
                row@[j as int],
            ));
            j = j + 1;
        }
        w_data.push(row);
        let b = plus(grad_b.data[i][0], node_values[i]);
        b_data.push(vec![b]);
        i = i + 1;
    }
    *grad_w = Matrix { rows, cols, data: w_data };
    *grad_b = Matrix { rows, cols: 1, data: b_data };
}

/// A layer whose weights and biases are all `zero` puts out the activation
/// of `zero` at every unit, whatever its inputs, wherever a product with
/// `zero` on the left is `zero` and `zero` plus `zero` is `zero`.
pub proof fn lemma_zero_layer_output<T: Copy, F: Fn(T, T) -> T, G: Fn(T, T) -> T, H: Fn(T) -> T>(
    weights: Matrix<T>,
    biases: Matrix<T>,
    inputs: Seq<T>,
    zero: T,
    times: F,
    plus: G,
    activation: H,
    i: int,
    weighted: T,
    output: T,
)
    requires
        weights.wf(),
        biases.wf(),
        weights.cols == inputs.len(),
        0 <= i < weights.rows,
        forall|a: int, b: int|
            0 <= a < weights.rows && 0 <= b < weights.cols ==> #[trigger] weights.at(a, b) == zero,
        biases.at(i, 0) == zero,
        forall|x: T, p: T| times.ensures((zero, x), p) ==> p == zero,
        forall|p: T| plus.ensures((zero, zero), p) ==> p == zero,
        unit_output(weights, biases, inputs, zero, times, plus, activation, i, weighted, output),
    ensures
        weighted == zero,
        activation.ensures((zero,), output),
{
    let row = weights.data@[i]@;
    let d = choose|d: T|
        #[trigger] is_dot(times, plus, zero, row, inputs, d) && plus.ensures(
            (d, biases.at(i, 0)),
            weighted,
        );
    let sums = choose|s: Seq<T>| #[trigger] dot_sums(times, plus, zero, row, inputs, s) && s.last() == d;
    assert forall|q: int| 0 <= q < row.len() implies row[q] == zero by {
        assert(weights.at(i, q) == zero);
    }
    lemma_zero_sums(times, plus, zero, row, inputs, sums, row.len() as int);
}

} // verus!

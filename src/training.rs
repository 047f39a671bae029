use vstd::prelude::*;

verus! {

/// The half-open range of sample indices of a batch.
pub struct Batch {
    pub start: usize,
    pub end: usize,
}

/// Splits `sample_count` samples into consecutive full batches of
/// `batch_size`; the samples after the last full batch belong to none.
pub fn batch_ranges(sample_count: usize, batch_size: usize) -> (r: Vec<Batch>)
    requires
        batch_size > 0,
    ensures
        r@.len() == sample_count / batch_size,
        forall|i: int|
            0 <= i < r@.len() ==> r@[i].start == i * batch_size && r@[i].end == r@[i].start
                + batch_size,
{
    let count = sample_count / batch_size;
    let mut r: Vec<Batch> = Vec::new();
    let mut i: usize = 0;
    let mut start: usize = 0;
    while i < count
        invariant
            batch_size > 0,
            count == sample_count / batch_size,
            i <= count,
            start == i * batch_size,
            r@.len() == i,
            forall|k: int|
                0 <= k < i ==> r@[k].start == k * batch_size && r@[k].end == r@[k].start
                    + batch_size,
        decreases count - i,
    {
        proof {
            let q = sample_count / batch_size;
            let m = sample_count % batch_size;
            assert(sample_count == batch_size * q + m && m >= 0) by {
                vstd::arithmetic::div_mod::lemma_fundamental_div_mod(
                    sample_count as int,
                    batch_size as int,
                );
            }
            assert((i + 1) * batch_size <= sample_count) by (nonlinear_arith)
                requires
                    i + 1 <= q,
                    sample_count == batch_size * q + m,
                    m >= 0,
                    batch_size > 0,
            ;
            assert((i + 1) * batch_size == i * batch_size + batch_size) by (nonlinear_arith);
        }
        r.push(Batch { start, end: start + batch_size });
        start = start + batch_size;
        i = i + 1;
    }
    r
}

/// The batch that each epoch trains on: the batches taken in turn, starting
/// again from the first after the last.
pub fn epoch_batches(epochs: usize, batch_count: usize) -> (r: Vec<usize>)
    requires
        epochs > 0 ==> batch_count > 0,
    ensures
        r@.len() == epochs,
        forall|e: int| 0 <= e < epochs ==> r@[e] == e % (batch_count as int),
{
    let mut r: Vec<usize> = Vec::new();
    let mut e: usize = 0;
    while e < epochs
        invariant
            e <= epochs,
            epochs > 0 ==> batch_count > 0,
            r@.len() == e,
            forall|k: int| 0 <= k < e ==> r@[k] == k % (batch_count as int),
        decreases epochs - e,
    {
        r.push(e % batch_count);
        e = e + 1;
    }
    r
}

/// One step of a left-to-right scan for the largest value: `next` is `k`
/// where `values[k]` is greater than the best so far, else the best so far.
pub open spec fn scan_step<T, F: Fn(T, T) -> bool>(
    greater: F,
    values: Seq<T>,
    k: int,
    best: int,
    next: int,
) -> bool {
    ||| greater.ensures((values[k], values[best]), true) && next == k
    ||| greater.ensures((values[k], values[best]), false) && next == best
}

/// `bests` are the indices that the scan holds after each value.
pub open spec fn scan_bests<T, F: Fn(T, T) -> bool>(
    greater: F,
    values: Seq<T>,
    bests: Seq<int>,
) -> bool {
    &&& bests.len() == values.len()
    &&& bests[0] == 0
    &&& forall|k: int|
        1 <= k < values.len() ==> #[trigger] scan_step(greater, values, k, bests[k - 1], bests[k])
}

/// `r` is the index of the first largest value, as a scan that replaces its
/// best only by a strictly greater value finds it; 0 where there is no value.
pub open spec fn is_arg_max<T, F: Fn(T, T) -> bool>(greater: F, values: Seq<T>, r: int) -> bool {
    if values.len() == 0 {
        r == 0
    } else {
        0 <= r < values.len() && exists|bests: Seq<int>| #[trigger]
            scan_bests(greater, values, bests) && bests.last() == r
    }
}

/// The index of the first largest value, `greater` telling whether its first
/// argument is greater than its second.
pub fn arg_max<T: Copy, F: Fn(T, T) -> bool>(values: &Vec<T>, greater: F) -> (r: usize)
    requires
        forall|x: T, y: T| greater.requires((x, y)),
    ensures
        is_arg_max(greater, values@, r as int),
{
    if values.len() == 0 {
        return 0;
    }
    let mut best: usize = 0;
    let ghost mut bests: Seq<int> = seq![0];
    let mut k: usize = 1;
    while k < values.len()
        invariant
            forall|x: T, y: T| greater.requires((x, y)),
            1 <= k <= values@.len(),
            best < k,
            bests.len() == k,
            bests[0] == 0,
            bests.last() == best,
            forall|q: int| 1 <= q < k ==> #[trigger] scan_step(greater, values@, q, bests[q - 1], bests[q]),
        decreases values@.len() - k,
    {
        let ghost prev = bests;
        let g = greater(values[k], values[best]);
        if g {
            best = k;
        }
        proof {
            bests = bests.push(best as int);
            assert(scan_step(greater, values@, k as int, prev.last(), best as int));
            assert forall|q: int| 1 <= q < k + 1 implies #[trigger] scan_step(
                greater,
                values@,
                q,
                bests[q - 1],
                bests[q],
            ) by {
                if q < k {
                    assert(bests[q - 1] == prev[q - 1] && bests[q] == prev[q]);
                }
            }
        }
        k = k + 1;
    }
    proof {
        assert(scan_bests(greater, values@, bests));
    }
    best
}

/// `greater` answers each question once, and "greater than" as it answers
/// is a strict total order: irreflexive, transitive, and of two different
/// values one is greater.
pub open spec fn strict_total_order<T, F: Fn(T, T) -> bool>(greater: F) -> bool {
    &&& forall|x: T, y: T|
        !(#[trigger] greater.ensures((x, y), true) && greater.ensures((x, y), false))
    &&& forall|x: T| !greater.ensures((x, x), true)
    &&& forall|x: T, y: T, z: T|
        #[trigger] greater.ensures((x, y), true) && #[trigger] greater.ensures((y, z), true)
            ==> greater.ensures((x, z), true)
    &&& forall|x: T, y: T|
        x != y ==> #[trigger] greater.ensures((x, y), true) || greater.ensures((y, x), true)
}

proof fn lemma_scan_keeps_first_max<T, F: Fn(T, T) -> bool>(
    greater: F,
    values: Seq<T>,
    bests: Seq<int>,
    k: int,
)
    requires
        strict_total_order(greater),
        scan_bests(greater, values, bests),
        0 <= k < values.len(),
    ensures
        0 <= bests[k] <= k,
        forall|q: int| 0 <= q <= k ==> !greater.ensures((values[q], values[bests[k]]), true),
        forall|q: int| 0 <= q < bests[k] ==> greater.ensures((values[bests[k]], values[q]), true),
    decreases k,
{
    if k > 0 {
        lemma_scan_keeps_first_max(greater, values, bests, k - 1);
        assert(scan_step(greater, values, k, bests[k - 1], bests[k]));
        let b = bests[k - 1];
        if greater.ensures((values[k], values[b]), true) {
            assert(bests[k] == k);
            assert forall|q: int| 0 <= q < k implies greater.ensures(
                (values[k], values[q]),
                true,
            ) by {
                if values[q] != values[b] {
                    assert(greater.ensures((values[b], values[q]), true));
                }
            }
        } else {
            assert(bests[k] == b);
        }
    }
}

/// Where `greater` is a strict total order, `arg_max` finds the first index
/// of a largest value: no value is greater than it, and it is greater than
/// every value before it.
pub proof fn lemma_arg_max_is_first_largest<T, F: Fn(T, T) -> bool>(
    greater: F,
    values: Seq<T>,
    r: int,
)
    requires
        strict_total_order(greater),
        is_arg_max(greater, values, r),
        values.len() > 0,
    ensures
        0 <= r < values.len(),
        forall|q: int| 0 <= q < values.len() ==> !greater.ensures((values[q], values[r]), true),
        forall|q: int| 0 <= q < r ==> greater.ensures((values[r], values[q]), true),
{
    let bests = choose|bests: Seq<int>| #[trigger]
        scan_bests(greater, values, bests) && bests.last() == r;
    lemma_scan_keeps_first_max(greater, values, bests, values.len() - 1);
}

/// The number of `true` answers.
pub open spec fn count_true(answers: Seq<bool>) -> int
    decreases answers.len(),
{
    if answers.len() == 0 {
        0
    } else {
        count_true(answers.drop_last()) + if answers.last() {
            1int
        } else {
            0int
        }
    }
}

/// `answers` are what `is_one` said of the target entry that each prediction names.
pub open spec fn hit_answers<T, F: Fn(T) -> bool>(
    predicted: Seq<usize>,
    targets: Seq<Vec<T>>,
    is_one: F,
    answers: Seq<bool>,
) -> bool {
    &&& answers.len() == predicted.len()
    &&& forall|i: int|
        0 <= i < predicted.len() ==> #[trigger] is_one.ensures(
            (targets[i]@[predicted[i] as int],),
            answers[i],
        )
}

/// How many predictions hit: those where `is_one` holds of the entry of the
/// sample's target at the predicted index.
pub fn count_hits<T: Copy, F: Fn(T) -> bool>(
    predicted: &Vec<usize>,
    targets: &Vec<Vec<T>>,
    is_one: F,
) -> (r: usize)
    requires
        predicted@.len() == targets@.len(),
        forall|i: int| 0 <= i < predicted@.len() ==> predicted@[i] < (#[trigger] targets@[i])@.len(),
        forall|x: T| is_one.requires((x,)),
    ensures
        r <= predicted@.len(),
        exists|answers: Seq<bool>| #[trigger]
            hit_answers(predicted@, targets@, is_one, answers) && r == count_true(answers),
{
    let mut hits: usize = 0;
    let ghost mut answers: Seq<bool> = Seq::empty();
    let mut i: usize = 0;
    while i < predicted.len()
        invariant
            predicted@.len() == targets@.len(),
            forall|k: int| 0 <= k < predicted@.len() ==> predicted@[k] < (#[trigger] targets@[k])@.len(),
            forall|x: T| is_one.requires((x,)),
            i <= predicted@.len(),
            hits <= i,
            answers.len() == i,
            forall|k: int|
                0 <= k < i ==> #[trigger] is_one.ensures(
                    (targets@[k]@[predicted@[k] as int],),
                    answers[k],
                ),
            hits == count_true(answers),
        decreases predicted@.len() - i,
    {
        let hit = is_one(targets[i][predicted[i]]);
        proof {
            let prev = answers;
            answers = answers.push(hit);
            assert(answers.drop_last() =~= prev);
        }
        if hit {
            hits = hits + 1;
        }
        i = i + 1;
    }
    assert(hit_answers(predicted@, targets@, is_one, answers));
    hits
}

/// Batching leaves the remainder alone: a sample lies in one of the full
/// batches exactly when its index comes before the last `sample_count %
/// batch_size` samples, and that batch is the one its index divided by the
/// batch size names.
pub proof fn lemma_batches_skip_remainder(
    sample_count: usize,
    batch_size: usize,
    sample: int,
)
    requires
        batch_size > 0,
        0 <= sample < sample_count,
    ensures
        (exists|i: int|
            0 <= i < sample_count / batch_size && #[trigger] (i * batch_size) <= sample < i * batch_size
                + batch_size) <==> sample < (sample_count / batch_size) * batch_size,
        sample < (sample_count / batch_size) * batch_size ==> {
            let i = sample / (batch_size as int);
            0 <= i < sample_count / batch_size && i * batch_size <= sample < i * batch_size
                + batch_size
        },
        (sample_count / batch_size) * batch_size + sample_count % batch_size == sample_count,
{
    let b = batch_size as int;
    let q = sample_count as int / b;
    vstd::arithmetic::div_mod::lemma_fundamental_div_mod(sample_count as int, b);
    vstd::arithmetic::div_mod::lemma_fundamental_div_mod(sample, b);
    let i0 = sample / b;
    let m0 = sample % b;
    assert(sample == b * i0 + m0 && 0 <= m0 < b);
    if sample < q * b {
        assert(0 <= i0 < q) by (nonlinear_arith)
            requires
                sample == b * i0 + m0,
                0 <= m0 < b,
                0 <= sample < q * b,
                b > 0,
        ;
        assert(i0 * b <= sample < i0 * b + b) by (nonlinear_arith)
            requires
                sample == b * i0 + m0,
                0 <= m0 < b,
        ;
    }
    assert forall|i: int|
        0 <= i < q && #[trigger] (i * b) <= sample < i * b + b implies sample < q * b by {
        assert(i * b + b <= q * b) by (nonlinear_arith)
            requires
                i + 1 <= q,
                b > 0,
        ;
    }
    assert(q * b == b * q) by (nonlinear_arith);
}

} // verus!

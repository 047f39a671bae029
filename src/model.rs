use vstd::prelude::*;

use crate::bytes::{
    be_u16, copy_range, lemma_u16_bytes, lemma_u16s_decode, lemma_u16s_len, lemma_u16s_round_trip,
    lemma_u64s_decode, lemma_u64s_len, lemma_u64s_round_trip, push_u16, push_u64, read_u16,
    read_u64, u16_bytes, u16s_bytes, u16s_decode, u64s_bytes, u64s_decode,
};

verus! {

/// What a saved model holds: the layer sizes, input size first, and every
/// parameter as the bit pattern of an IEEE-754 double. Layer after layer, the
/// parameters are that layer's weights, row by row, then its biases.
pub struct ModelParams {
    pub sizes: Vec<u16>,
    pub params: Vec<u64>,
}

/// Why a model could not be written or read.
#[derive(Debug, Clone, Copy, PartialEq, Eq)]
pub enum ModelError {
    /// The bytes end before the data that their header announces.
    Truncated,
    /// The header announces no layer size at all.
    NoLayerSizes,
    /// Bytes follow the data that the header announces.
    TrailingBytes,
    /// More layer sizes than a `u16` count can hold.
    TooManyLayers,
    /// The number of parameters does not fit the layer sizes.
    ParamCountMismatch,
}

/// How many parameters a fully-connected layer from `size_in` to `size_out` units has.
pub open spec fn layer_param_count(size_in: int, size_out: int) -> int {
    size_out * size_in + size_out
}

/// How many parameters the layers between consecutive sizes hold together.
pub open spec fn param_count(sizes: Seq<u16>) -> int
    decreases sizes.len(),
{
    if sizes.len() <= 1 {
        0
    } else {
        param_count(sizes.drop_last()) + layer_param_count(
            sizes[sizes.len() - 2] as int,
            sizes.last() as int,
        )
    }
}

/// A model that can be saved: at least one size, a count that fits a `u16`,
/// and one parameter for each weight and bias.
pub open spec fn model_wf(sizes: Seq<u16>, params: Seq<u64>) -> bool {
    1 <= sizes.len() <= 0xffff && params.len() == param_count(sizes)
}

/// The saved form: the number of sizes, the sizes, then the parameters, all big-endian.
pub open spec fn model_bytes(sizes: Seq<u16>, params: Seq<u64>) -> Seq<u8> {
    u16_bytes(sizes.len() as u16) + u16s_bytes(sizes) + u64s_bytes(params)
}

/// The number of sizes that a saved model's header announces.
pub open spec fn model_count(b: Seq<u8>) -> int {
    be_u16(b[0], b[1]) as int
}

/// The layer sizes that a saved model's header holds.
pub open spec fn model_sizes(b: Seq<u8>) -> Seq<u16> {
    u16s_decode(b.subrange(2, 2 + 2 * model_count(b)))
}

/// Where the parameters of a saved model start.
pub open spec fn params_start(b: Seq<u8>) -> int {
    2 + 2 * model_count(b)
}

/// Where the parameters of a saved model end, by its header.
pub open spec fn model_end(b: Seq<u8>) -> int {
    params_start(b) + 8 * param_count(model_sizes(b))
}

/// The parameters of a saved model.
pub open spec fn model_params(b: Seq<u8>) -> Seq<u64> {
    u64s_decode(b.subrange(params_start(b), model_end(b)))
}

/// Bytes that hold exactly one saved model.
pub open spec fn well_framed(b: Seq<u8>) -> bool {
    b.len() >= 2 && model_count(b) >= 1 && b.len() == model_end(b)
}

proof fn lemma_param_count_step(sizes: Seq<u16>, i: int)
    requires
        1 <= i < sizes.len(),
    ensures
        param_count(sizes.subrange(0, i + 1)) == param_count(sizes.subrange(0, i))
            + layer_param_count(sizes[i - 1] as int, sizes[i] as int),
{
    assert(sizes.subrange(0, i + 1).drop_last() =~= sizes.subrange(0, i));
}

/// The number of parameters that the layers between consecutive `sizes` hold.
pub fn count_params(sizes: &Vec<u16>) -> (r: u64)
    requires
        sizes@.len() <= 0xffff,
    ensures
        r == param_count(sizes@),
        r <= 0xffff * 0x1_0000_0000,
{
    let mut total: u64 = 0;
    let mut i: usize = 1;
    if sizes.len() == 0 {
        return 0;
    }
    while i < sizes.len()
        invariant
            1 <= i <= sizes@.len() <= 0xffff,
            total == param_count(sizes@.subrange(0, i as int)),
            total <= i * 0x1_0000_0000,
        decreases sizes@.len() - i,
    {
        let a = sizes[i - 1] as u64;
        let b = sizes[i] as u64;
        assert(b * a + b <= 0x1_0000_0000) by (nonlinear_arith)
            requires
                a <= 0xffff,
                b <= 0xffff,
        ;
        proof {
            lemma_param_count_step(sizes@, i as int);
        }
        total = total + b * a + b;
        i = i + 1;
    }
    assert(sizes@.subrange(0, i as int) =~= sizes@);
    total
}

/// Encodes a model in its saved form.
pub fn encode_model(m: &ModelParams) -> (r: Result<Vec<u8>, ModelError>)
    ensures
        match r {
            Ok(b) => model_wf(m.sizes@, m.params@) && b@ == model_bytes(m.sizes@, m.params@),
            Err(ModelError::NoLayerSizes) => m.sizes@.len() == 0,
            Err(ModelError::TooManyLayers) => m.sizes@.len() > 0xffff,
            Err(ModelError::ParamCountMismatch) => 1 <= m.sizes@.len() <= 0xffff
                && m.params@.len() != param_count(m.sizes@),
            Err(_) => false,
        },
{
    let n = m.sizes.len();
    if n == 0 {
        return Err(ModelError::NoLayerSizes);
    }
    if n > 0xffff {
        return Err(ModelError::TooManyLayers);
    }
    if m.params.len() as u64 != count_params(&m.sizes) {
        return Err(ModelError::ParamCountMismatch);
    }
    let mut out: Vec<u8> = Vec::new();
    push_u16(&mut out, n as u16);
    let mut i: usize = 0;
    while i < n
        invariant
            n == m.sizes@.len(),
            i <= n,
            out@ == u16_bytes(n as u16) + u16s_bytes(m.sizes@.subrange(0, i as int)),
        decreases n - i,
    {
        push_u16(&mut out, m.sizes[i]);
        proof {
            assert(m.sizes@.subrange(0, i + 1).drop_last() =~= m.sizes@.subrange(0, i as int));
        }
        i = i + 1;
    }
    assert(m.sizes@.subrange(0, n as int) =~= m.sizes@);
    let ghost head = out@;
    let mut j: usize = 0;
    while j < m.params.len()
        invariant
            j <= m.params@.len(),
            out@ == head + u64s_bytes(m.params@.subrange(0, j as int)),
        decreases m.params@.len() - j,
    {
        push_u64(&mut out, m.params[j]);
        proof {
            assert(m.params@.subrange(0, j + 1).drop_last() =~= m.params@.subrange(0, j as int));
            assert(head + u64s_bytes(m.params@.subrange(0, j as int)) + crate::bytes::u64_bytes(m.params@[j as int])
                =~= head + (u64s_bytes(m.params@.subrange(0, j as int)) + crate::bytes::u64_bytes(m.params@[j as int])));
        }
        j = j + 1;
    }
    assert(m.params@.subrange(0, j as int) =~= m.params@);
    Ok(out)
}

/// Decodes a model from its saved form.
pub fn decode_model(b: &Vec<u8>) -> (r: Result<ModelParams, ModelError>)
    ensures
        match r {
            Ok(m) => well_framed(b@) && m.sizes@ == model_sizes(b@) && m.params@ == model_params(
                b@,
            ) && model_wf(m.sizes@, m.params@) && model_bytes(m.sizes@, m.params@) == b@,
            Err(ModelError::Truncated) => b@.len() < 2 || (model_count(b@) >= 1 && b@.len()
                < model_end(b@)),
            Err(ModelError::NoLayerSizes) => b@.len() >= 2 && model_count(b@) == 0,
            Err(ModelError::TrailingBytes) => b@.len() >= 2 && model_count(b@) >= 1 && b@.len()
                > model_end(b@),
            Err(_) => false,
        },
{
    let n = b.len();
    if n < 2 {
        return Err(ModelError::Truncated);
    }
    let count = read_u16(b, 0);
    if count == 0 {
        return Err(ModelError::NoLayerSizes);
    }
    let start: usize = 2 + 2 * (count as usize);
    if n < start {
        proof {
            assert(param_count(model_sizes(b@)) >= 0) by {
                lemma_param_count_nonneg(model_sizes(b@));
            }
        }
        return Err(ModelError::Truncated);
    }
    let ghost sizes_bytes = b@.subrange(2, start as int);
    let mut sizes: Vec<u16> = Vec::new();
    let mut i: usize = 0;
    while i < count as usize
        invariant
            n == b@.len(),
            start == 2 + 2 * count,
            start <= n,
            count == model_count(b@),
            sizes_bytes == b@.subrange(2, start as int),
            i <= count,
            sizes@ == model_sizes(b@).subrange(0, i as int),
        decreases count - i,
    {
        sizes.push(read_u16(b, 2 + 2 * i));
        proof {
            assert(sizes_bytes[2 * i] == b@[2 + 2 * i]);
            assert(sizes_bytes[2 * i + 1] == b@[2 + 2 * i + 1]);
            assert(sizes@ =~= model_sizes(b@).subrange(0, i + 1));
        }
        i = i + 1;
    }
    assert(sizes@ =~= model_sizes(b@));
    let total = count_params(&sizes);
    let rest = (n - start) as u64;
    if rest < 8 * total {
        return Err(ModelError::Truncated);
    }
    if rest > 8 * total {
        return Err(ModelError::TrailingBytes);
    }
    let ghost params_bytes = b@.subrange(start as int, n as int);
    let mut params: Vec<u64> = Vec::new();
    let mut j: usize = 0;
    while j < total as usize
        invariant
            n == b@.len(),
            start == params_start(b@),
            n == start + 8 * total,
            total == param_count(model_sizes(b@)),
            params_bytes == b@.subrange(start as int, n as int),
            j <= total,
            params@ == model_params(b@).subrange(0, j as int),
        decreases total - j,
    {
        params.push(read_u64(b, start + 8 * j));
        proof {
            assert(crate::bytes::be_u64_at(params_bytes, 8 * j) == crate::bytes::be_u64_at(
                b@,
                start + 8 * j,
            ));
            assert(params@ =~= model_params(b@).subrange(0, j + 1));
        }
        j = j + 1;
    }
    assert(params@ =~= model_params(b@));
    proof {
        lemma_u16_bytes(0, b@[0], b@[1]);
        lemma_u16s_decode(sizes_bytes);
        lemma_u64s_decode(params_bytes);
        assert(b@ =~= seq![b@[0], b@[1]] + sizes_bytes + params_bytes);
    }
    Ok(ModelParams { sizes, params })
}

proof fn lemma_param_count_nonneg(sizes: Seq<u16>)
    ensures
        param_count(sizes) >= 0,
    decreases sizes.len(),
{
    if sizes.len() > 1 {
        lemma_param_count_nonneg(sizes.drop_last());
        assert(layer_param_count(sizes[sizes.len() - 2] as int, sizes.last() as int) >= 0)
            by (nonlinear_arith)
            requires
                sizes[sizes.len() - 2] >= 0,
                sizes.last() >= 0,
        ;
    }
}

/// Loading what was saved gives the model back, bit for bit: the saved form
/// of a well-formed model holds exactly one model, with its sizes and
/// parameters.
pub proof fn lemma_load_after_save(sizes: Seq<u16>, params: Seq<u64>)
    requires
        model_wf(sizes, params),
    ensures
        well_framed(model_bytes(sizes, params)),
        model_sizes(model_bytes(sizes, params)) == sizes,
        model_params(model_bytes(sizes, params)) == params,
{
    let b = model_bytes(sizes, params);
    let n = sizes.len() as int;
    lemma_u16_bytes(n as u16, 0, 0);
    lemma_u16s_len(sizes);
    lemma_u64s_len(params);
    lemma_u16s_round_trip(sizes);
    lemma_u64s_round_trip(params);
    assert(model_count(b) == n);
    assert(b.subrange(2, 2 + 2 * n) =~= u16s_bytes(sizes));
    assert(model_sizes(b) == sizes);
    assert(b.subrange(2 + 2 * n, b.len() as int) =~= u64s_bytes(params));
}

/// Two well-formed models with the same saved form are the same model.
pub proof fn lemma_model_bytes_injective(
    sizes1: Seq<u16>,
    params1: Seq<u64>,
    sizes2: Seq<u16>,
    params2: Seq<u64>,
)
    requires
        model_wf(sizes1, params1),
        model_wf(sizes2, params2),
        model_bytes(sizes1, params1) == model_bytes(sizes2, params2),
    ensures
        sizes1 == sizes2,
        params1 == params2,
{
    lemma_load_after_save(sizes1, params1);
    lemma_load_after_save(sizes2, params2);
}

/// The parameters of one layer, as bit patterns: a weight for each unit and
/// input, row by row, and a bias for each unit.
pub struct LayerParams {
    pub size_in: usize,
    pub size_out: usize,
    pub weights: Vec<Vec<u64>>,
    pub biases: Vec<u64>,
}

/// Where the parameters of layer `k` start among those of a model.
pub open spec fn layer_offset(sizes: Seq<u16>, k: int) -> int {
    param_count(sizes.subrange(0, k + 1))
}

proof fn lemma_param_count_prefix(sizes: Seq<u16>, k: int)
    requires
        1 <= k <= sizes.len(),
    ensures
        param_count(sizes.subrange(0, k)) <= param_count(sizes),
    decreases sizes.len() - k,
{
    if k < sizes.len() {
        lemma_param_count_step(sizes, k);
        lemma_param_count_prefix(sizes, k + 1);
        let a = sizes[k - 1] as int;
        let b = sizes[k] as int;
        assert(layer_param_count(a, b) >= 0) by (nonlinear_arith)
            requires
                a >= 0,
                b >= 0,
        ;
    } else {
        assert(sizes.subrange(0, k) =~= sizes);
    }
}

/// Splits the parameters of a model into its layers.
pub fn split_layers(m: &ModelParams) -> (r: Vec<LayerParams>)
    requires
        model_wf(m.sizes@, m.params@),
    ensures
        r@.len() == m.sizes@.len() - 1,
        forall|k: int|
            0 <= k < r@.len() ==> {
                let l = #[trigger] r@[k];
                let off = layer_offset(m.sizes@, k);
                &&& l.size_in == m.sizes@[k]
                &&& l.size_out == m.sizes@[k + 1]
                &&& l.weights@.len() == l.size_out
                &&& forall|i: int|
                    0 <= i < l.size_out ==> (#[trigger] l.weights@[i])@ == m.params@.subrange(
                        off + i * l.size_in,
                        off + i * l.size_in + l.size_in,
                    )
                &&& l.biases@ == m.params@.subrange(
                    off + l.size_out * l.size_in,
                    off + l.size_out * l.size_in + l.size_out,
                )
            },
{
    let n = m.sizes.len();
    let plen = m.params.len();
    let mut r: Vec<LayerParams> = Vec::new();
    let mut offset: usize = 0;
    let mut k: usize = 1;
    assert(m.sizes@.subrange(0, 1).len() == 1);
    while k < n
        invariant
            n == m.sizes@.len(),
            plen == m.params@.len(),
            model_wf(m.sizes@, m.params@),
            1 <= k <= n,
            r@.len() == k - 1,
            offset == param_count(m.sizes@.subrange(0, k as int)),
            forall|q: int|
                0 <= q < r@.len() ==> {
                    let l = #[trigger] r@[q];
                    let off = layer_offset(m.sizes@, q);
                    &&& l.size_in == m.sizes@[q]
                    &&& l.size_out == m.sizes@[q + 1]
                    &&& l.weights@.len() == l.size_out
                    &&& forall|i: int|
                        0 <= i < l.size_out ==> (#[trigger] l.weights@[i])@
                            == m.params@.subrange(
                            off + i * l.size_in,
                            off + i * l.size_in + l.size_in,
                        )
                    &&& l.biases@ == m.params@.subrange(
                        off + l.size_out * l.size_in,
                        off + l.size_out * l.size_in + l.size_out,
                    )
                },
        decreases n - k,
    {
        let size_in = m.sizes[k - 1] as usize;
        let size_out = m.sizes[k] as usize;
        proof {
            lemma_param_count_step(m.sizes@, k as int);
            lemma_param_count_prefix(m.sizes@, k as int + 1);
        }
        assert(0 <= size_out * size_in) by (nonlinear_arith);
        let ghost end = offset + size_out * size_in + size_out;
        assert(end <= m.params@.len());
        let mut weights: Vec<Vec<u64>> = Vec::with_capacity(size_out);
        let mut i: usize = 0;
        while i < size_out
            invariant
                plen == m.params@.len(),
                end == offset + size_out * size_in + size_out,
                end <= m.params@.len(),
                i <= size_out,
                weights@.len() == i,
                forall|a: int|
                    0 <= a < i ==> (#[trigger] weights@[a])@ == m.params@.subrange(
                        offset + a * size_in,
                        offset + a * size_in + size_in,
                    ),
            decreases size_out - i,
        {
            assert(0 <= i * size_in && i * size_in + size_in <= size_out * size_in)
                by (nonlinear_arith)
                requires
                    i < size_out,
            ;
            weights.push(copy_range(&m.params, offset + i * size_in, size_in));
            i = i + 1;
        }
        let biases = copy_range(&m.params, offset + size_out * size_in, size_out);
        r.push(LayerParams { size_in, size_out, weights, biases });
        offset = offset + size_out * size_in + size_out;
        k = k + 1;
    }
    r
}

} // verus!

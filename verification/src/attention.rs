use vstd::prelude::*;

verus! {

/// The causal mask over `context_length` positions, row by row: entry
/// `(i, j)`, at `i * context_length + j`, is set when position `i` must not
/// attend to position `j`, that is when `j` comes after `i`.
pub open spec fn causal_mask_of(context_length: int) -> Seq<bool> {
    Seq::new(
        (context_length * context_length) as nat,
        |k: int| k % context_length > k / context_length,
    )
}

/// The width of each attention head: the output width shared evenly among the heads.
pub fn head_dimension(output_dimensions: usize, num_heads: usize) -> (r: usize)
    requires
        num_heads > 0,
    ensures
        r == output_dimensions / num_heads,
{
    output_dimensions / num_heads
}

/// The shape that a `[batch_size, num_tokens, d_model]` projection is viewed
/// in to split it into heads of `head_dimension` values each.
pub fn head_split_shape(batch_size: usize, num_tokens: usize, d_model: usize, head_dimension: usize) -> (r: [usize; 4])
    requires
        head_dimension > 0,
    ensures
        r@ == seq![batch_size, num_tokens, d_model / head_dimension, head_dimension],
{
    let num_heads = d_model / head_dimension;
    let r = [batch_size, num_tokens, num_heads, head_dimension];
    assert(r@ =~= seq![batch_size, num_tokens, d_model / head_dimension, head_dimension]);
    r
}

/// The causal mask over `context_length` positions, row by row: the strict
/// upper triangle of a square of ones.
pub fn causal_mask(context_length: usize) -> (mask: Vec<bool>)
    requires
        context_length * context_length <= usize::MAX,
    ensures
        mask@ == causal_mask_of(context_length as int),
{
    let c = context_length;
    let ghost ci = c as int;
    let mut mask: Vec<bool> = Vec::new();
    for i in 0..c
        invariant
            c == context_length,
            ci == c as int,
            mask@.len() == i * ci,
            forall|k: int| 0 <= k < mask@.len() ==> #[trigger] mask@[k] == (k % ci > k / ci),
    {
        for j in 0..c
            invariant
                c == context_length,
                ci == c as int,
                0 <= i < c,
                mask@.len() == i * ci + j,
                forall|k: int| 0 <= k < mask@.len() ==> #[trigger] mask@[k] == (k % ci > k / ci),
        {
            proof {
                let k = i * ci + j;
                vstd::arithmetic::div_mod::lemma_fundamental_div_mod_converse_mod(k, ci, i as int, j as int);
                vstd::arithmetic::div_mod::lemma_fundamental_div_mod_converse_div(k, ci, i as int, j as int);
            }
            mask.push(j > i);
        }
        proof {
            vstd::arithmetic::mul::lemma_mul_is_distributive_add(ci, i as int, 1);
            vstd::arithmetic::mul::lemma_mul_is_commutative(ci, i as int);
            vstd::arithmetic::mul::lemma_mul_is_commutative(ci, i + 1);
        }
    }
    assert(mask@ =~= causal_mask_of(context_length as int));
    mask
}

/// The causal mask over `context_length` positions holds exactly one entry
/// for each pair of positions: `context_length * context_length` entries.
pub proof fn lemma_causal_mask_len(context_length: int)
    requires
        context_length >= 0,
    ensures
        causal_mask_of(context_length).len() == context_length * context_length,
{
    vstd::arithmetic::mul::lemma_mul_nonnegative(context_length, context_length);
}

/// Entry `(i, j)` of the causal mask is set exactly when `j` comes after `i`:
/// a position attends to itself and to the positions before it, never after.
pub proof fn lemma_causal_mask_entry(context_length: int, i: int, j: int)
    requires
        0 <= i < context_length,
        0 <= j < context_length,
    ensures
        0 <= i * context_length + j < context_length * context_length,
        causal_mask_of(context_length)[i * context_length + j] == (j > i),
{
    let k = i * context_length + j;
    vstd::arithmetic::div_mod::lemma_fundamental_div_mod_converse_mod(k, context_length, i, j);
    vstd::arithmetic::div_mod::lemma_fundamental_div_mod_converse_div(k, context_length, i, j);
    vstd::arithmetic::mul::lemma_mul_inequality(i + 1, context_length, context_length);
    vstd::arithmetic::mul::lemma_mul_is_distributive_add(context_length, i, 1);
    vstd::arithmetic::mul::lemma_mul_is_commutative(context_length, i);
    vstd::arithmetic::mul::lemma_mul_is_commutative(context_length, i + 1);
    vstd::arithmetic::mul::lemma_mul_nonnegative(i, context_length);
}

/// The top-left `num_tokens` by `num_tokens` block of the causal mask over
/// `context_length` positions is the causal mask over `num_tokens` positions:
/// cutting the mask down to the tokens at hand keeps it causal.
pub proof fn lemma_causal_mask_prefix(context_length: int, num_tokens: int, i: int, j: int)
    requires
        0 <= num_tokens <= context_length,
        0 <= i < num_tokens,
        0 <= j < num_tokens,
    ensures
        causal_mask_of(context_length)[i * context_length + j] == causal_mask_of(num_tokens)[i
            * num_tokens + j],
{
    lemma_causal_mask_entry(context_length, i, j);
    lemma_causal_mask_entry(num_tokens, i, j);
}

/// When the heads share the output width evenly, splitting a projection of
/// that width by the head dimension gives back the configured number of heads,
/// and the split shape holds exactly as many values as the projection.
pub proof fn lemma_head_split_recovers_heads(
    batch_size: int,
    num_tokens: int,
    output_dimensions: int,
    num_heads: int,
)
    requires
        num_heads > 0,
        output_dimensions > 0,
        output_dimensions % num_heads == 0,
        batch_size >= 0,
        num_tokens >= 0,
    ensures
        output_dimensions / num_heads > 0,
        output_dimensions / (output_dimensions / num_heads) == num_heads,
        batch_size * num_tokens * num_heads * (output_dimensions / num_heads) == batch_size
            * num_tokens * output_dimensions,
{
    let hd = output_dimensions / num_heads;
    vstd::arithmetic::div_mod::lemma_fundamental_div_mod(output_dimensions, num_heads);
    vstd::arithmetic::mul::lemma_mul_is_commutative(num_heads, hd);
    if hd <= 0 {
        vstd::arithmetic::mul::lemma_mul_nonnegative(num_heads, -hd);
    }
    vstd::arithmetic::div_mod::lemma_fundamental_div_mod_converse_div(output_dimensions, hd, num_heads, 0);
    vstd::arithmetic::mul::lemma_mul_is_associative(batch_size * num_tokens, num_heads, hd);
}

} // verus!

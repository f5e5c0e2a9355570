use vstd::prelude::*;

verus! {

type TokenType = i64;

/// How many samples a token sequence of length `n` yields: one for each start
/// `k * stride` whose window of `max_length` tokens, and the same window moved
/// one token on, both lie inside the sequence (`k * stride + max_length < n`).
pub open spec fn sample_count(n: int, max_length: int, stride: int) -> int {
    if n > max_length {
        (n - max_length - 1) / stride + 1
    } else {
        0
    }
}

/// The tokens that sample `i` reads: `max_length` tokens from `i * stride` on.
pub open spec fn input_window(tokens: Seq<TokenType>, i: int, max_length: int, stride: int) -> Seq<
    TokenType,
> {
    tokens.subrange(i * stride, i * stride + max_length)
}

/// The tokens that sample `i` is to predict: its input window moved one token on.
pub open spec fn target_window(tokens: Seq<TokenType>, i: int, max_length: int, stride: int) -> Seq<
    TokenType,
> {
    tokens.subrange(i * stride + 1, i * stride + max_length + 1)
}

/// The input windows of all samples of `tokens`, in order.
pub open spec fn input_windows(tokens: Seq<TokenType>, max_length: int, stride: int) -> Seq<
    Seq<TokenType>,
> {
    Seq::new(
        sample_count(tokens.len() as int, max_length, stride) as nat,
        |i: int| input_window(tokens, i, max_length, stride),
    )
}

/// The target windows of all samples of `tokens`, in order.
pub open spec fn target_windows(tokens: Seq<TokenType>, max_length: int, stride: int) -> Seq<
    Seq<TokenType>,
> {
    Seq::new(
        sample_count(tokens.len() as int, max_length, stride) as nat,
        |i: int| target_window(tokens, i, max_length, stride),
    )
}

/// The start of every sample, and the end of its target window, lie inside the tokens.
proof fn lemma_sample_in_range(i: int, n: int, max_length: int, stride: int)
    requires
        stride > 0,
        max_length >= 0,
        0 <= i < sample_count(n, max_length, stride),
    ensures
        0 <= i * stride,
        i * stride + max_length < n,
{
    let x = n - max_length - 1;
    let q = x / stride;
    vstd::arithmetic::div_mod::lemma_fundamental_div_mod(x, stride);
    vstd::arithmetic::div_mod::lemma_mod_pos_bound(x, stride);
    vstd::arithmetic::mul::lemma_mul_inequality(i, q, stride);
    vstd::arithmetic::mul::lemma_mul_nonnegative(i, stride);
    vstd::arithmetic::mul::lemma_mul_is_commutative(q, stride);
}

/// Sample `k` exists exactly when its window and the window one token on fit in
/// the tokens: the samples are all the windows at multiples of `stride` that fit.
pub proof fn lemma_sample_exists_iff_window_fits(n: int, max_length: int, stride: int, k: int)
    requires
        stride > 0,
        max_length >= 0,
        n >= 0,
        k >= 0,
    ensures
        k < sample_count(n, max_length, stride) <==> k * stride + max_length < n,
{
    if k < sample_count(n, max_length, stride) {
        lemma_sample_in_range(k, n, max_length, stride);
    } else if n > max_length {
        let x = n - max_length - 1;
        let q = x / stride;
        vstd::arithmetic::div_mod::lemma_fundamental_div_mod(x, stride);
        vstd::arithmetic::div_mod::lemma_mod_pos_bound(x, stride);
        vstd::arithmetic::mul::lemma_mul_inequality(q + 1, k, stride);
        vstd::arithmetic::mul::lemma_mul_is_distributive_add(stride, q, 1);
        vstd::arithmetic::mul::lemma_mul_is_commutative(q + 1, stride);
    } else {
        vstd::arithmetic::mul::lemma_mul_nonnegative(k, stride);
    }
}

/// Sample `i` reads exactly the tokens from `i * stride` to
/// `i * stride + max_length` and predicts exactly the tokens one further on:
/// input token `j` is token `i * stride + j` and target token `j` is token
/// `i * stride + j + 1`, for every position `j` of the window.
pub proof fn lemma_sample_tokens(tokens: Seq<TokenType>, max_length: int, stride: int, i: int)
    requires
        stride > 0,
        max_length >= 0,
        0 <= i < sample_count(tokens.len() as int, max_length, stride),
    ensures
        0 <= i * stride,
        i * stride + max_length < tokens.len(),
        input_windows(tokens, max_length, stride).len() == target_windows(
            tokens,
            max_length,
            stride,
        ).len(),
        input_windows(tokens, max_length, stride)[i].len() == max_length,
        target_windows(tokens, max_length, stride)[i].len() == max_length,
        forall|j: int|
            0 <= j < max_length ==> #[trigger] input_windows(tokens, max_length, stride)[i][j]
                == tokens[i * stride + j],
        forall|j: int|
            0 <= j < max_length ==> #[trigger] target_windows(tokens, max_length, stride)[i][j]
                == tokens[i * stride + j + 1],
{
    lemma_sample_in_range(i, tokens.len() as int, max_length, stride);
}

/// Every input and every target window holds exactly `max_length` tokens.
pub proof fn lemma_windows_have_max_length(tokens: Seq<TokenType>, max_length: int, stride: int, i: int)
    requires
        stride > 0,
        max_length >= 0,
        0 <= i < sample_count(tokens.len() as int, max_length, stride),
    ensures
        input_windows(tokens, max_length, stride)[i].len() == max_length,
        target_windows(tokens, max_length, stride)[i].len() == max_length,
{
    lemma_sample_in_range(i, tokens.len() as int, max_length, stride);
}

/// The target of a sample is its input moved on by one token: target token `j`
/// is input token `j + 1`, and the last target token is the token after the input.
pub proof fn lemma_target_is_input_shifted(tokens: Seq<TokenType>, max_length: int, stride: int, i: int)
    requires
        stride > 0,
        max_length >= 1,
        0 <= i < sample_count(tokens.len() as int, max_length, stride),
    ensures
        forall|j: int|
            0 <= j < max_length - 1 ==> #[trigger] target_windows(tokens, max_length, stride)[i][j]
                == input_windows(tokens, max_length, stride)[i][j + 1],
        target_windows(tokens, max_length, stride)[i][max_length - 1] == tokens[i * stride
            + max_length],
{
    lemma_sample_in_range(i, tokens.len() as int, max_length, stride);
}

/// Consecutive samples start `stride` tokens apart: where two input windows
/// overlap, the later one repeats the earlier one `stride` tokens on.
pub proof fn lemma_consecutive_inputs_overlap(
    tokens: Seq<TokenType>,
    max_length: int,
    stride: int,
    i: int,
)
    requires
        stride > 0,
        max_length >= 0,
        0 <= i,
        i + 1 < sample_count(tokens.len() as int, max_length, stride),
    ensures
        forall|j: int|
            0 <= j && j + stride < max_length ==> #[trigger] input_windows(
                tokens,
                max_length,
                stride,
            )[i + 1][j] == input_windows(tokens, max_length, stride)[i][j + stride],
{
    lemma_sample_in_range(i, tokens.len() as int, max_length, stride);
    lemma_sample_in_range(i + 1, tokens.len() as int, max_length, stride);
    vstd::arithmetic::mul::lemma_mul_is_distributive_add(stride, i, 1);
    vstd::arithmetic::mul::lemma_mul_is_commutative(i + 1, stride);
    vstd::arithmetic::mul::lemma_mul_is_commutative(i, stride);
}

/// Sample `i` starts at token `i * stride`.
pub proof fn lemma_sample_start(tokens: Seq<TokenType>, max_length: int, stride: int, i: int)
    requires
        stride > 0,
        max_length >= 1,
        0 <= i < sample_count(tokens.len() as int, max_length, stride),
    ensures
        input_windows(tokens, max_length, stride)[i][0] == tokens[i * stride],
{
    lemma_sample_in_range(i, tokens.len() as int, max_length, stride);
}

/// A token sequence yields no sample exactly when it is not longer than one window.
pub proof fn lemma_no_samples_iff_short(tokens: Seq<TokenType>, max_length: int, stride: int)
    requires
        stride > 0,
        max_length >= 0,
    ensures
        input_windows(tokens, max_length, stride).len() == 0 <==> tokens.len() <= max_length,
{
    if tokens.len() > max_length {
        lemma_sample_exists_iff_window_fits(tokens.len() as int, max_length, stride, 0);
    }
}

/// A data set cut from `tokens` (as `DataSet::new` makes it) is empty exactly
/// when the tokens are no longer than one window.
pub proof fn lemma_empty_iff_short(ds: DataSet, tokens: Seq<TokenType>, max_length: int, stride: int)
    requires
        stride > 0,
        max_length >= 0,
        ds.well_formed(),
        ds.inputs() == input_windows(tokens, max_length, stride),
    ensures
        (ds.input_ids@.len() == 0 && ds.target_ids@.len() == 0) <==> tokens.len() <= max_length,
{
    lemma_no_samples_iff_short(tokens, max_length, stride);
    assert(ds.inputs().len() == ds.input_ids@.len());
}

/// Training samples cut from a token sequence: sample `i` pairs the window of
/// tokens it reads with the window, one token further on, that it predicts.
pub struct DataSet {
    pub input_ids: Vec<Vec<TokenType>>,
    pub target_ids: Vec<Vec<TokenType>>,
}

impl DataSet {
    /// The input windows, as sequences.
    pub open spec fn inputs(&self) -> Seq<Seq<TokenType>> {
        self.input_ids@.map_values(|v: Vec<TokenType>| v@)
    }

    /// The target windows, as sequences.
    pub open spec fn targets(&self) -> Seq<Seq<TokenType>> {
        self.target_ids@.map_values(|v: Vec<TokenType>| v@)
    }

    /// Every sample has both an input and a target window.
    pub open spec fn well_formed(&self) -> bool {
        self.input_ids@.len() == self.target_ids@.len()
    }

    /// Cuts `token_ids` into samples: sample `i` reads the `max_length` tokens
    /// from `i * stride` on and predicts the `max_length` tokens from
    /// `i * stride + 1` on. Only windows that fit completely are taken.
    pub fn new(token_ids: Vec<TokenType>, max_length: usize, stride: usize) -> (r: Self)
        requires
            stride > 0,
        ensures
            r.well_formed(),
            r.inputs() == input_windows(token_ids@, max_length as int, stride as int),
            r.targets() == target_windows(token_ids@, max_length as int, stride as int),
    {
        let n = token_ids.len();
        let mut input_ids: Vec<Vec<TokenType>> = Vec::new();
        let mut target_ids: Vec<Vec<TokenType>> = Vec::new();
        let count: usize = if n > max_length {
            (n - max_length - 1) / stride + 1
        } else {
            0
        };
        assert(count == sample_count(n as int, max_length as int, stride as int));
        let ghost inputs = input_windows(token_ids@, max_length as int, stride as int);
        let ghost targets = target_windows(token_ids@, max_length as int, stride as int);
        for i in 0..count
            invariant
                n == token_ids@.len(),
                stride > 0,
                count == sample_count(n as int, max_length as int, stride as int),
                inputs == input_windows(token_ids@, max_length as int, stride as int),
                targets == target_windows(token_ids@, max_length as int, stride as int),
                input_ids@.len() == i,
                target_ids@.len() == i,
                forall|j: int| 0 <= j < i ==> #[trigger] input_ids@[j]@ == inputs[j],
                forall|j: int| 0 <= j < i ==> #[trigger] target_ids@[j]@ == targets[j],
        {
            proof {
                lemma_sample_in_range(i as int, n as int, max_length as int, stride as int);
            }
            let start = i * stride;
            input_ids.push(copy_window(&token_ids, start, max_length));
            target_ids.push(copy_window(&token_ids, start + 1, max_length));
        }
        let r = Self { input_ids, target_ids };
        assert(r.inputs() =~= inputs);
        assert(r.targets() =~= targets);
        r
    }

    /// The number of samples.
    pub fn len(&self) -> (r: usize)
        ensures
            r == self.input_ids@.len(),
    {
        self.input_ids.len()
    }

    /// Sample `index`: its input window and its target window, or `None` past the end.
    pub fn get(&self, index: usize) -> (r: Option<(&Vec<TokenType>, &Vec<TokenType>)>)
        requires
            index < self.input_ids@.len() ==> index < self.target_ids@.len(),
        ensures
            r is None <==> index >= self.input_ids@.len(),
            r matches Some((input, target)) ==> {
                &&& input@ == self.inputs()[index as int]
                &&& target@ == self.targets()[index as int]
            },
    {
        if index >= self.len() {
            return None;
        }
        Some((&self.input_ids[index], &self.target_ids[index]))
    }

    /// Whether the data set holds no sample at all.
    pub fn is_empty(&self) -> (r: bool)
        ensures
            r == (self.input_ids@.len() == 0 && self.target_ids@.len() == 0),
    {
        self.input_ids.is_empty() && self.target_ids.is_empty()
    }
}

/// The `len` tokens of `tokens` from `start` on, as a vector of their own.
pub(crate) fn copy_window<T: Copy>(tokens: &Vec<T>, start: usize, len: usize) -> (w: Vec<T>)
    requires
        start + len <= tokens@.len(),
    ensures
        w@ == tokens@.subrange(start as int, start + len),
{
    let mut w: Vec<T> = Vec::new();
    for j in 0..len
        invariant
            start + len <= tokens.len(),
            w@ == tokens@.subrange(start as int, start + j),
    {
        w.push(tokens[start + j]);
        assert(w@ =~= tokens@.subrange(start as int, start + j + 1));
    }
    w
}

} // verus!

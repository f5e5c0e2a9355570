use burn::data::dataset::Dataset;
use burn::data::dataset::InMemDataset;
use burn::tensor::TensorData;
use tiktoken_rs::CoreBPE;
use vstd::prelude::*;

use crate::data::copy_window;

verus! {

/// One training example: a window of tokens and the window that follows it.
#[derive(Clone, Debug)]
pub struct DataItem {
    pub current_window: Vec<u32>,
    pub target_window: Vec<u32>,
}

impl View for DataItem {
    type V = (Seq<u32>, Seq<u32>);

    open spec fn view(&self) -> (Seq<u32>, Seq<u32>) {
        (self.current_window@, self.target_window@)
    }
}

#[verifier::external_type_specification]
#[verifier::external_body]
#[verifier::reject_recursive_types(I)]
pub struct ExInMemDataset<I>(InMemDataset<I>);

#[verifier::external_type_specification]
#[verifier::external_body]
pub struct ExCoreBpe(CoreBPE);

#[verifier::external_type_specification]
#[verifier::external_body]
pub struct ExTensorData(TensorData);

/// The items an in-memory data set holds, in order, each by its view.
pub uninterp spec fn in_mem_items(dataset: InMemDataset<DataItem>) -> Seq<(Seq<u32>, Seq<u32>)>;

/// The values that tensor data of `u32` elements holds, in row-major order.
pub uninterp spec fn tensor_u32_values(data: TensorData) -> Seq<u32>;

/// The shape that tensor data lays its values out in.
pub uninterp spec fn tensor_shape(data: TensorData) -> Seq<usize>;

/// The token ids that `CoreBPE::encode` gives for `text` when every special
/// token of the encoder is allowed, or `None` where it reports an error (its
/// regular expression engine failing on `text`, such as by hitting its
/// backtracking limit).
pub uninterp spec fn bpe_encoding(encoder: CoreBPE, text: Seq<char>) -> Option<Seq<u32>>;

/// Whether the encoder's vocabulary gives a rank to every single byte, and
/// none of its special tokens is the empty string: what `CoreBPE::encode`
/// needs so as neither to panic nor to run forever.
pub uninterp spec fn encoder_is_complete(encoder: CoreBPE) -> bool;

/// `InMemDataset::new`: the data set holds the given items, in the given order.
#[verifier::external_body]
fn in_mem_dataset_new(items: Vec<DataItem>) -> (dataset: InMemDataset<DataItem>)
    ensures
        in_mem_items(dataset) == items@.map_values(|item: DataItem| item@),
{
    InMemDataset::new(items)
}

/// `Dataset::len` of `InMemDataset`: the number of items held.
#[verifier::external_body]
fn in_mem_dataset_len(dataset: &InMemDataset<DataItem>) -> (n: usize)
    ensures
        n == in_mem_items(*dataset).len(),
{
    dataset.len()
}

/// `Dataset::get` of `InMemDataset`: a clone of the item at `index`, or `None`
/// past the end. The clone that `DataItem`'s derived `Clone` makes has the same
/// two windows.
#[verifier::external_body]
fn in_mem_dataset_get(dataset: &InMemDataset<DataItem>, index: usize) -> (item: Option<DataItem>)
    ensures
        item is None <==> index >= in_mem_items(*dataset).len(),
        item matches Some(it) ==> it@ == in_mem_items(*dataset)[index as int],
{
    dataset.get(index)
}

/// `CoreBPE::encode` with all of the encoder's special tokens allowed
/// (`CoreBPE::special_tokens`), as `CoreBPE::encode_with_special_tokens` calls
/// it: the token ids of `text`, or `None` where the encoder reports an error.
/// The encoding is a function of the encoder and the text alone: the
/// per-thread regular expressions are clones of one another, and the rest are
/// map lookups. With a complete encoder the call returns: every byte-pair
/// merge starts from single bytes, each of which has a rank, and only looks up
/// byte sequences whose rank it has found; a special token is looked up by the
/// text that the special-token expression, built from those very tokens,
/// matched; and no special token is empty, so every step moves on.
#[verifier::external_body]
fn encode_with_special_tokens(encoder: &CoreBPE, text: &str) -> (tokens: Option<Vec<u32>>)
    requires
        encoder_is_complete(*encoder),
    ensures
        match tokens {
            Some(t) => bpe_encoding(*encoder, text@) == Some(t@),
            None => bpe_encoding(*encoder, text@) is None,
        },
{
    match encoder.encode(text, &encoder.special_tokens()) {
        Ok((tokens, _)) => Some(tokens),
        Err(_) => None,
    }
}

/// `tiktoken_rs::o200k_base`: the o200k encoder, built from the vocabulary
/// file bundled with the crate. That file is well formed (every line a base64
/// token and a rank) and ranks all 256 single bytes, and the encoder's two
/// special tokens are `<|endoftext|>` and `<|endofprompt|>`, so the call
/// succeeds and the encoder is complete.
#[verifier::external_body]
fn load_o200k_base() -> (encoder: CoreBPE)
    ensures
        encoder_is_complete(encoder),
{
    tiktoken_rs::o200k_base().expect("the bundled o200k vocabulary is well formed")
}

/// `TensorData::new` on `u32` values: tensor data that holds the given values
/// laid out in the given shape. It panics unless the shape holds as many
/// elements as there are values, which `requires` rules out.
#[verifier::external_body]
fn new_u32_tensor_data(values: Vec<u32>, shape: [usize; 2]) -> (data: TensorData)
    requires
        values@.len() == shape[0] * shape[1],
    ensures
        tensor_u32_values(data) == values@,
        tensor_shape(data) == seq![shape[0], shape[1]],
{
    TensorData::new(values, shape)
}

/// How many windows of `window_size` tokens start at multiples of `stride`
/// inside `n` tokens.
pub open spec fn window_count(n: int, window_size: int, stride: int) -> int {
    if n >= window_size {
        (n - window_size) / stride + 1
    } else {
        0
    }
}

/// How many items the windows give: one fewer than there are windows, as the
/// last window is only ever a target.
pub open spec fn pair_count(n: int, window_size: int, stride: int) -> int {
    if n >= window_size {
        (n - window_size) / stride
    } else {
        0
    }
}

/// Window `k`: the `window_size` tokens from `k * stride` on.
pub open spec fn token_window(tokens: Seq<u32>, k: int, window_size: int, stride: int) -> Seq<u32> {
    tokens.subrange(k * stride, k * stride + window_size)
}

/// The items of a data set cut from `tokens`: item `k` pairs window `k` with
/// window `k + 1`; the last window is only ever a target.
pub open spec fn window_pairs(tokens: Seq<u32>, window_size: int, stride: int) -> Seq<
    (Seq<u32>, Seq<u32>),
> {
    Seq::new(
        pair_count(tokens.len() as int, window_size, stride) as nat,
        |k: int|
            (
                token_window(tokens, k, window_size, stride),
                token_window(tokens, k + 1, window_size, stride),
            ),
    )
}

/// Every window counted by `window_count` lies inside the tokens.
proof fn lemma_window_in_range(k: int, n: int, window_size: int, stride: int)
    requires
        stride > 0,
        window_size >= 0,
        0 <= k < window_count(n, window_size, stride),
    ensures
        0 <= k * stride,
        k * stride + window_size <= n,
{
    let x = n - window_size;
    let q = x / stride;
    vstd::arithmetic::div_mod::lemma_fundamental_div_mod(x, stride);
    vstd::arithmetic::div_mod::lemma_mod_pos_bound(x, stride);
    vstd::arithmetic::mul::lemma_mul_inequality(k, q, stride);
    vstd::arithmetic::mul::lemma_mul_nonnegative(k, stride);
    vstd::arithmetic::mul::lemma_mul_is_commutative(q, stride);
}

/// The current windows of a batch of items, in order.
pub open spec fn current_windows(batch: Seq<DataItem>) -> Seq<Seq<u32>> {
    batch.map_values(|item: DataItem| item.current_window@)
}

/// The target windows of a batch of items, in order.
pub open spec fn target_windows(batch: Seq<DataItem>) -> Seq<Seq<u32>> {
    batch.map_values(|item: DataItem| item.target_window@)
}

/// The shape a batch is laid out in: one row per item, as long as the first
/// item's current window.
pub open spec fn batch_shape(batch: Seq<DataItem>) -> Seq<usize> {
    seq![batch.len() as usize, batch[0].current_window@.len() as usize]
}

/// The batch is not empty and its current windows, and its target windows,
/// hold exactly as many tokens as the shape `batch_shape` has room for.
pub open spec fn fits_batch_shape(batch: Seq<DataItem>) -> bool {
    &&& batch.len() > 0
    &&& batch.len() * batch[0].current_window@.len() <= usize::MAX
    &&& current_windows(batch).flatten().len() == batch.len() * batch[0].current_window@.len()
    &&& target_windows(batch).flatten().len() == batch.len() * batch[0].current_window@.len()
}

/// The windows of `batch`, one after another, each as a row of a
/// `[batch size, window length]` tensor: the inputs from the current windows,
/// the targets from the target windows.
pub fn batch_data(batch: Vec<DataItem>) -> (r: (TensorData, TensorData))
    requires
        fits_batch_shape(batch@),
    ensures
        tensor_u32_values(r.0) == current_windows(batch@).flatten(),
        tensor_shape(r.0) == batch_shape(batch@),
        tensor_u32_values(r.1) == target_windows(batch@).flatten(),
        tensor_shape(r.1) == batch_shape(batch@),
{
    let batch_size = batch.len();
    let seq_len = batch[0].current_window.len();
    let mut input_data: Vec<u32> = Vec::new();
    let mut target_data: Vec<u32> = Vec::new();
    for i in 0..batch_size
        invariant
            batch_size == batch@.len(),
            input_data@ == current_windows(batch@).take(i as int).flatten(),
            target_data@ == target_windows(batch@).take(i as int).flatten(),
    {
        append_window(&mut input_data, &batch[i].current_window);
        append_window(&mut target_data, &batch[i].target_window);
        proof {
            lemma_flatten_take_succ(current_windows(batch@), i as int);
            lemma_flatten_take_succ(target_windows(batch@), i as int);
        }
    }
    proof {
        assert(current_windows(batch@).take(batch_size as int) =~= current_windows(batch@));
        assert(target_windows(batch@).take(batch_size as int) =~= target_windows(batch@));
    }
    let shape = [batch_size, seq_len];
    let inputs = new_u32_tensor_data(input_data, shape);
    let targets = new_u32_tensor_data(target_data, shape);
    proof {
        assert(seq![shape[0], shape[1]] =~= batch_shape(batch@));
    }
    (inputs, targets)
}

/// Whether `batch` meets `fits_batch_shape`, the condition under which
/// `batch_data` can lay it out.
pub fn fits_batch_shape_check(batch: &Vec<DataItem>) -> (r: bool)
    ensures
        r == fits_batch_shape(batch@),
{
    if batch.len() == 0 {
        return false;
    }
    let seq_len = batch[0].current_window.len();
    let limit = match batch.len().checked_mul(seq_len) {
        Some(limit) => limit,
        None => {
            return false;
        },
    };
    let mut total_in: usize = 0;
    let mut total_tg: usize = 0;
    for i in 0..batch.len()
        invariant
            limit == batch@.len() * batch@[0].current_window@.len(),
            total_in == current_windows(batch@).take(i as int).flatten().len(),
            total_tg == target_windows(batch@).take(i as int).flatten().len(),
            total_in <= limit,
            total_tg <= limit,
    {
        proof {
            lemma_flatten_take_succ(current_windows(batch@), i as int);
            lemma_flatten_take_succ(target_windows(batch@), i as int);
        }
        let len_in = batch[i].current_window.len();
        let len_tg = batch[i].target_window.len();
        if len_in > limit - total_in || len_tg > limit - total_tg {
            proof {
                lemma_flatten_prefix_len(current_windows(batch@), i + 1);
                lemma_flatten_prefix_len(target_windows(batch@), i + 1);
            }
            return false;
        }
        total_in = total_in + len_in;
        total_tg = total_tg + len_tg;
    }
    proof {
        assert(current_windows(batch@).take(batch@.len() as int) =~= current_windows(batch@));
        assert(target_windows(batch@).take(batch@.len() as int) =~= target_windows(batch@));
    }
    total_in == limit && total_tg == limit
}

/// Appends the tokens of `window` to `data`.
fn append_window(data: &mut Vec<u32>, window: &Vec<u32>)
    ensures
        final(data)@ == old(data)@ + window@,
{
    for j in 0..window.len()
        invariant
            data@ == old(data)@ + window@.take(j as int),
    {
        data.push(window[j]);
        assert(window@.take(j + 1) =~= window@.take(j as int).push(window@[j as int]));
        assert(data@ =~= old(data)@ + window@.take(j + 1));
    }
    assert(window@.take(window@.len() as int) =~= window@);
}

/// Flattening one more window appends that window.
proof fn lemma_flatten_take_succ(windows: Seq<Seq<u32>>, i: int)
    requires
        0 <= i < windows.len(),
    ensures
        windows.take(i + 1).flatten() == windows.take(i).flatten() + windows[i],
{
    let single = seq![windows[i]];
    assert(windows.take(i + 1) =~= windows.take(i) + single);
    vstd::seq_lib::lemma_flatten_concat(windows.take(i), single);
    single.lemma_flatten_one_element();
}

/// Flattening a longer prefix never gives fewer tokens.
proof fn lemma_flatten_prefix_len(windows: Seq<Seq<u32>>, i: int)
    requires
        0 <= i <= windows.len(),
    ensures
        windows.take(i).flatten().len() <= windows.flatten().len(),
    decreases windows.len() - i,
{
    if i < windows.len() {
        lemma_flatten_take_succ(windows, i);
        lemma_flatten_prefix_len(windows, i + 1);
    } else {
        assert(windows.take(i) =~= windows);
    }
}

/// Item `k`'s target window is item `k + 1`'s current window: the items chain
/// through the text window by window.
pub proof fn lemma_items_chain(tokens: Seq<u32>, window_size: int, stride: int, k: int)
    requires
        window_size > 0,
        stride > 0,
        0 <= k,
        k + 1 < window_pairs(tokens, window_size, stride).len(),
    ensures
        window_pairs(tokens, window_size, stride)[k].1 == window_pairs(
            tokens,
            window_size,
            stride,
        )[k + 1].0,
{
}

/// Both windows of every item hold exactly `window_size` tokens, and item `k`
/// starts at token `k * stride`.
pub proof fn lemma_item_windows_have_window_size(
    tokens: Seq<u32>,
    window_size: int,
    stride: int,
    k: int,
)
    requires
        window_size > 0,
        stride > 0,
        0 <= k < window_pairs(tokens, window_size, stride).len(),
    ensures
        window_pairs(tokens, window_size, stride)[k].0.len() == window_size,
        window_pairs(tokens, window_size, stride)[k].1.len() == window_size,
        window_pairs(tokens, window_size, stride)[k].0[0] == tokens[k * stride],
{
    let n = tokens.len() as int;
    vstd::arithmetic::div_mod::lemma_div_pos_is_pos(n - window_size, stride);
    lemma_window_in_range(k, n, window_size, stride);
    lemma_window_in_range(k + 1, n, window_size, stride);
}

/// Item `k` holds exactly window `k` of the tokens as its current window and
/// window `k + 1` as its target, for every item, the last one included:
/// current token `j` is token `k * stride + j` and target token `j` is token
/// `(k + 1) * stride + j`, both windows lying inside the tokens.
pub proof fn lemma_item_tokens(tokens: Seq<u32>, window_size: int, stride: int, k: int)
    requires
        window_size > 0,
        stride > 0,
        0 <= k < window_pairs(tokens, window_size, stride).len(),
    ensures
        0 <= k * stride,
        (k + 1) * stride + window_size <= tokens.len(),
        window_pairs(tokens, window_size, stride)[k].0.len() == window_size,
        window_pairs(tokens, window_size, stride)[k].1.len() == window_size,
        forall|j: int|
            0 <= j < window_size ==> #[trigger] window_pairs(tokens, window_size, stride)[k].0[j]
                == tokens[k * stride + j],
        forall|j: int|
            0 <= j < window_size ==> #[trigger] window_pairs(tokens, window_size, stride)[k].1[j]
                == tokens[(k + 1) * stride + j],
{
    let n = tokens.len() as int;
    vstd::arithmetic::div_mod::lemma_div_pos_is_pos(n - window_size, stride);
    lemma_window_in_range(k, n, window_size, stride);
    lemma_window_in_range(k + 1, n, window_size, stride);
}

/// A text of `n` tokens gives one item fewer than it has windows, and none
/// when it has a single window.
pub proof fn lemma_item_count(tokens: Seq<u32>, window_size: int, stride: int)
    requires
        window_size > 0,
        stride > 0,
        tokens.len() >= window_size,
    ensures
        window_pairs(tokens, window_size, stride).len() == (tokens.len() - window_size) / stride,
{
}

/// Windows that all hold `len` tokens flatten into `windows.len() * len`
/// tokens, in which row `i` is window `i`.
pub proof fn lemma_flatten_rows(windows: Seq<Seq<u32>>, len: int)
    requires
        len >= 0,
        forall|i: int| 0 <= i < windows.len() ==> #[trigger] windows[i].len() == len,
    ensures
        windows.flatten().len() == windows.len() * len,
        forall|i: int|
            0 <= i < windows.len() ==> windows.flatten().subrange(i * len, (i + 1) * len)
                == #[trigger] windows[i],
{
    lemma_flatten_rows_prefix(windows, len, windows.len() as int);
    assert(windows.take(windows.len() as int) =~= windows);
}

/// `lemma_flatten_rows` for the first `k` windows.
proof fn lemma_flatten_rows_prefix(windows: Seq<Seq<u32>>, len: int, k: int)
    requires
        len >= 0,
        0 <= k <= windows.len(),
        forall|i: int| 0 <= i < windows.len() ==> #[trigger] windows[i].len() == len,
    ensures
        windows.take(k).flatten().len() == k * len,
        forall|i: int|
            0 <= i < k ==> windows.take(k).flatten().subrange(i * len, (i + 1) * len)
                == #[trigger] windows[i],
    decreases k,
{
    if k == 0 {
        assert(windows.take(0) =~= Seq::<Seq<u32>>::empty());
    } else {
        let j = k - 1;
        lemma_flatten_rows_prefix(windows, len, j);
        let before = windows.take(j).flatten();
        lemma_flatten_take_succ(windows, j);
        let after = windows.take(k).flatten();
        assert(after == before + windows[j]);
        vstd::arithmetic::mul::lemma_mul_is_distributive_add(len, j, 1);
        vstd::arithmetic::mul::lemma_mul_is_commutative(len, j);
        vstd::arithmetic::mul::lemma_mul_is_commutative(len, k);
        assert forall|i: int| 0 <= i < k implies after.subrange(i * len, (i + 1) * len)
            == #[trigger] windows[i] by {
            vstd::arithmetic::mul::lemma_mul_is_distributive_add(len, i, 1);
            vstd::arithmetic::mul::lemma_mul_is_commutative(len, i);
            vstd::arithmetic::mul::lemma_mul_is_commutative(len, i + 1);
            if i < j {
                vstd::arithmetic::mul::lemma_mul_inequality(i + 1, j, len);
                vstd::arithmetic::mul::lemma_mul_nonnegative(i, len);
                assert(after.subrange(i * len, (i + 1) * len) =~= before.subrange(
                    i * len,
                    (i + 1) * len,
                ));
            } else {
                assert(after.subrange(i * len, (i + 1) * len) =~= windows[i]);
            }
        }
    }
}

/// A non-empty batch of items of one data set fits the batch shape (when its
/// size does), and row `i` of the laid-out inputs and targets is item `i`'s
/// current and target window.
pub proof fn lemma_batch_of_items_fits(
    batch: Seq<DataItem>,
    tokens: Seq<u32>,
    window_size: int,
    stride: int,
)
    requires
        window_size > 0,
        stride > 0,
        batch.len() > 0,
        batch.len() * window_size <= usize::MAX,
        forall|i: int|
            0 <= i < batch.len() ==> window_pairs(tokens, window_size, stride).contains(
                #[trigger] batch[i]@,
            ),
    ensures
        fits_batch_shape(batch),
        batch_shape(batch) == seq![batch.len() as usize, window_size as usize],
        forall|i: int|
            0 <= i < batch.len() ==> current_windows(batch).flatten().subrange(
                i * window_size,
                (i + 1) * window_size,
            ) == (#[trigger] batch[i]).current_window@,
        forall|i: int|
            0 <= i < batch.len() ==> target_windows(batch).flatten().subrange(
                i * window_size,
                (i + 1) * window_size,
            ) == (#[trigger] batch[i]).target_window@,
{
    let pairs = window_pairs(tokens, window_size, stride);
    assert forall|i: int| 0 <= i < batch.len() implies #[trigger] current_windows(batch)[i].len()
        == window_size && target_windows(batch)[i].len() == window_size by {
        let k = choose|k: int| 0 <= k < pairs.len() && pairs[k] == batch[i]@;
        lemma_item_windows_have_window_size(tokens, window_size, stride, k);
    }
    assert forall|i: int| 0 <= i < batch.len() implies #[trigger] target_windows(batch)[i].len()
        == window_size by {
        assert(current_windows(batch)[i].len() == window_size);
    }
    lemma_flatten_rows(current_windows(batch), window_size);
    lemma_flatten_rows(target_windows(batch), window_size);
    assert(current_windows(batch)[0].len() == window_size);
    assert forall|i: int| 0 <= i < batch.len() implies current_windows(batch).flatten().subrange(
        i * window_size,
        (i + 1) * window_size,
    ) == (#[trigger] batch[i]).current_window@ by {
        assert(current_windows(batch)[i] == batch[i].current_window@);
    }
    assert forall|i: int| 0 <= i < batch.len() implies target_windows(batch).flatten().subrange(
        i * window_size,
        (i + 1) * window_size,
    ) == (#[trigger] batch[i]).target_window@ by {
        assert(target_windows(batch)[i] == batch[i].target_window@);
    }
}

/// A BPE encoder that can encode any text without panicking: every single
/// byte has a rank in its vocabulary and no special token is empty.
pub struct Tokenizer {
    bpe: CoreBPE,
}

impl Tokenizer {
    #[verifier::type_invariant]
    spec fn complete(self) -> bool {
        encoder_is_complete(self.bpe)
    }

    /// The encoder inside.
    pub closed spec fn bpe(self) -> CoreBPE {
        self.bpe
    }

    /// The o200k encoder (the one of GPT-4o and later models).
    pub fn o200k_base() -> (r: Self) {
        Tokenizer { bpe: load_o200k_base() }
    }
}

/// Data items cut from a text, held in memory.
pub struct DataSet {
    pub data: InMemDataset<DataItem>,
}

impl DataSet {
    /// The items held, in order.
    pub open spec fn items(&self) -> Seq<(Seq<u32>, Seq<u32>)> {
        in_mem_items(self.data)
    }

    /// Cuts `raw_tokens` into windows of `window_size` tokens that start
    /// `stride` tokens apart, and pairs each window with the next one.
    pub fn from_tokens(raw_tokens: Vec<u32>, window_size: usize, stride: usize) -> (r: Self)
        requires
            window_size > 0,
            stride > 0,
            raw_tokens@.len() >= window_size,
        ensures
            r.items() == window_pairs(raw_tokens@, window_size as int, stride as int),
    {
        let n = raw_tokens.len();
        let count: usize = (n - window_size) / stride + 1;
        assert(count == window_count(n as int, window_size as int, stride as int));
        let ghost pairs = window_pairs(raw_tokens@, window_size as int, stride as int);
        let mut data: Vec<DataItem> = Vec::new();
        for k in 0..count - 1
            invariant
                n == raw_tokens@.len(),
                window_size > 0,
                stride > 0,
                count == window_count(n as int, window_size as int, stride as int),
                count >= 1,
                pairs == window_pairs(raw_tokens@, window_size as int, stride as int),
                data@.len() == k,
                forall|j: int| 0 <= j < k ==> #[trigger] data@[j]@ == pairs[j],
        {
            proof {
                lemma_window_in_range(k as int, n as int, window_size as int, stride as int);
                lemma_window_in_range(k + 1, n as int, window_size as int, stride as int);
                vstd::arithmetic::mul::lemma_mul_is_distributive_add(stride as int, k as int, 1);
                vstd::arithmetic::mul::lemma_mul_is_commutative(k + 1, stride as int);
                vstd::arithmetic::mul::lemma_mul_is_commutative(k as int, stride as int);
            }
            let start = k * stride;
            let current_window = copy_window(&raw_tokens, start, window_size);
            let target_window = copy_window(&raw_tokens, start + stride, window_size);
            data.push(DataItem { current_window, target_window });
        }
        assert(data@.map_values(|item: DataItem| item@) =~= pairs);
        Self { data: in_mem_dataset_new(data) }
    }

    /// Encodes `input` with `encoder`, every special token allowed, and cuts
    /// the tokens into items as `from_tokens` does. The encoding must succeed
    /// and hold at least one window.
    pub fn new(input: &str, encoder: Tokenizer, window_size: usize, stride: usize) -> (r: Self)
        requires
            window_size > 0,
            stride > 0,
            bpe_encoding(encoder.bpe(), input@) matches Some(tokens) && tokens.len()
                >= window_size,
        ensures
            r.items() == window_pairs(
                bpe_encoding(encoder.bpe(), input@)->0,
                window_size as int,
                stride as int,
            ),
    {
        proof {
            use_type_invariant(&encoder);
        }
        let raw_tokens = encode_with_special_tokens(&encoder.bpe, input).unwrap();
        Self::from_tokens(raw_tokens, window_size, stride)
    }

    /// `new` where it applies: `None` when the encoder reports an error on
    /// `input`, or when the text encodes to fewer than `window_size` tokens,
    /// so that not even one window fits.
    pub fn try_new(input: &str, encoder: Tokenizer, window_size: usize, stride: usize) -> (r: Option<
        Self,
    >)
        requires
            window_size > 0,
            stride > 0,
        ensures
            r is None <==> match bpe_encoding(encoder.bpe(), input@) {
                Some(tokens) => tokens.len() < window_size,
                None => true,
            },
            r matches Some(ds) ==> ds.items() == window_pairs(
                bpe_encoding(encoder.bpe(), input@)->0,
                window_size as int,
                stride as int,
            ),
    {
        proof {
            use_type_invariant(&encoder);
        }
        let fits = match encode_with_special_tokens(&encoder.bpe, input) {
            Some(tokens) => tokens.len() >= window_size,
            None => false,
        };
        if fits {
            Some(Self::new(input, encoder, window_size, stride))
        } else {
            None
        }
    }

    /// The number of items.
    pub fn len(&self) -> (r: usize)
        ensures
            r == self.items().len(),
    {
        in_mem_dataset_len(&self.data)
    }

    /// A copy of item `idx`, or `None` past the end.
    pub fn get(&self, idx: usize) -> (r: Option<DataItem>)
        ensures
            r is None <==> idx >= self.items().len(),
            r matches Some(item) ==> item@ == self.items()[idx as int],
    {
        in_mem_dataset_get(&self.data, idx)
    }
}

} // verus!

use burn::data::dataset::Dataset;
use zoea_lm::dataloader::{batch_data, fits_batch_shape_check, DataItem, DataSet, Tokenizer};

fn item(current: &[u32], target: &[u32]) -> DataItem {
    DataItem {
        current_window: current.to_vec(),
        target_window: target.to_vec(),
    }
}

#[test]
fn from_tokens_pairs_each_window_with_the_next() {
    let tokens: Vec<u32> = vec![1, 2, 3, 4, 5, 6, 7];
    // windows of 3 every 2 tokens: [1,2,3], [3,4,5], [5,6,7]
    let dataset = DataSet::from_tokens(tokens, 3, 2);
    assert_eq!(dataset.len(), 2);
    let first = dataset.get(0).unwrap();
    assert_eq!(first.current_window, vec![1, 2, 3]);
    assert_eq!(first.target_window, vec![3, 4, 5]);
    let second = dataset.get(1).unwrap();
    assert_eq!(second.current_window, vec![3, 4, 5]);
    assert_eq!(second.target_window, vec![5, 6, 7]);
    assert!(dataset.get(2).is_none());
}

#[test]
fn from_tokens_stride_one_targets_are_shifted_inputs() {
    let tokens: Vec<u32> = (0..10).collect();
    let dataset = DataSet::from_tokens(tokens, 4, 1);
    // (10 - 4) / 1 items
    assert_eq!(dataset.len(), 6);
    for k in 0..dataset.len() {
        let it = dataset.get(k).unwrap();
        let expected: Vec<u32> = (k as u32..k as u32 + 4).collect();
        assert_eq!(it.current_window, expected);
        let expected_target: Vec<u32> = (k as u32 + 1..k as u32 + 5).collect();
        assert_eq!(it.target_window, expected_target);
    }
}

#[test]
fn from_tokens_items_chain() {
    let tokens: Vec<u32> = (100..160).collect();
    let dataset = DataSet::from_tokens(tokens, 5, 3);
    assert_eq!(dataset.len(), (60 - 5) / 3);
    for k in 0..dataset.len() - 1 {
        assert_eq!(
            dataset.get(k).unwrap().target_window,
            dataset.get(k + 1).unwrap().current_window
        );
    }
}

#[test]
fn from_tokens_single_window_gives_no_item() {
    let dataset = DataSet::from_tokens(vec![1, 2, 3], 3, 1);
    assert_eq!(dataset.len(), 0);
    assert!(dataset.get(0).is_none());
    assert!(dataset.data.is_empty());
}

#[test]
fn new_encodes_and_windows_text() {
    let encoder = tiktoken_rs::o200k_base().unwrap();
    let tokenizer = Tokenizer::o200k_base();
    let text = "In the beginning the universe was created. This has made a lot of people very angry.";
    let tokens = encoder.encode_with_special_tokens(text);
    let expected = DataSet::from_tokens(tokens.clone(), 4, 2);
    let dataset = DataSet::new(text, tokenizer, 4, 2);
    assert_eq!(dataset.len(), (tokens.len() - 4) / 2);
    assert_eq!(dataset.len(), expected.len());
    for k in 0..dataset.len() {
        let it = dataset.get(k).unwrap();
        assert_eq!(it.current_window, tokens[2 * k..2 * k + 4].to_vec());
        assert_eq!(it.target_window, tokens[2 * k + 2..2 * k + 6].to_vec());
    }
}

#[test]
fn new_on_short_text_is_none() {
    assert!(DataSet::try_new("hi", Tokenizer::o200k_base(), 50, 1).is_none());
    assert!(DataSet::try_new("", Tokenizer::o200k_base(), 1, 1).is_none());
}

#[test]
fn batch_data_lays_out_rows() {
    let batch = vec![item(&[1, 2, 3], &[4, 5, 6]), item(&[7, 8, 9], &[10, 11, 12])];
    assert!(fits_batch_shape_check(&batch));
    let (inputs, targets) = batch_data(batch);
    assert_eq!(inputs.shape, vec![2, 3]);
    assert_eq!(targets.shape, vec![2, 3]);
    assert_eq!(inputs.to_vec::<u32>().unwrap(), vec![1, 2, 3, 7, 8, 9]);
    assert_eq!(targets.to_vec::<u32>().unwrap(), vec![4, 5, 6, 10, 11, 12]);
}

#[test]
fn batch_data_single_item() {
    let batch = vec![item(&[42], &[43])];
    let (inputs, targets) = batch_data(batch);
    assert_eq!(inputs.shape, vec![1, 1]);
    assert_eq!(inputs.to_vec::<u32>().unwrap(), vec![42]);
    assert_eq!(targets.to_vec::<u32>().unwrap(), vec![43]);
}

#[test]
fn fits_batch_shape_check_cases() {
    assert!(!fits_batch_shape_check(&Vec::new()));
    // uneven rows that still add up to the shape are laid out as they come
    assert!(fits_batch_shape_check(&vec![
        item(&[1, 2], &[1, 2]),
        item(&[1, 2, 3, 4], &[1, 2, 3, 4]),
        item(&[], &[])
    ]));
    assert!(!fits_batch_shape_check(&vec![item(&[1, 2], &[1, 2]), item(&[1], &[1])]));
    assert!(!fits_batch_shape_check(&vec![item(&[1, 2], &[1, 2]), item(&[3, 4], &[3])]));
}

#[test]
fn dataset_items_batch_into_rectangles() {
    let dataset = DataSet::from_tokens((0..30).collect(), 4, 3);
    let batch: Vec<DataItem> = (0..3).map(|k| dataset.get(k).unwrap()).collect();
    assert!(fits_batch_shape_check(&batch));
    let (inputs, targets) = batch_data(batch.clone());
    let flat_in = inputs.to_vec::<u32>().unwrap();
    let flat_tg = targets.to_vec::<u32>().unwrap();
    for (i, it) in batch.iter().enumerate() {
        assert_eq!(flat_in[i * 4..(i + 1) * 4].to_vec(), it.current_window);
        assert_eq!(flat_tg[i * 4..(i + 1) * 4].to_vec(), it.target_window);
    }
}

#[test]
fn new_keeps_special_tokens_as_single_ids() {
    let encoder = tiktoken_rs::o200k_base().unwrap();
    let text = "<|endoftext|> hello there";
    let tokens = encoder.encode_with_special_tokens(text);
    let special = encoder.encode_with_special_tokens("<|endoftext|>");
    assert_eq!(special.len(), 1);
    assert_eq!(tokens[0], special[0]);
    let dataset = DataSet::try_new(text, Tokenizer::o200k_base(), 1, 1).unwrap();
    assert_eq!(dataset.len(), tokens.len() - 1);
    assert_eq!(dataset.get(0).unwrap().current_window, vec![special[0]]);
    assert_eq!(dataset.get(0).unwrap().target_window, vec![tokens[1]]);
}

#[test]
fn try_new_agrees_with_new() {
    let text = "The quick brown fox jumps over the lazy dog, twice over.";
    let a = DataSet::try_new(text, Tokenizer::o200k_base(), 3, 2).unwrap();
    let b = DataSet::new(text, Tokenizer::o200k_base(), 3, 2);
    assert_eq!(a.len(), b.len());
    for k in 0..a.len() {
        assert_eq!(a.get(k).unwrap().current_window, b.get(k).unwrap().current_window);
        assert_eq!(a.get(k).unwrap().target_window, b.get(k).unwrap().target_window);
    }
}

use zoea_lm::data::DataSet;

#[test]
fn test_dataset_creation() {
    let tokens: Vec<i64> = (0..100).collect();
    let max_length = 10;
    let stride = 5;

    let dataset = DataSet::new(tokens, max_length, stride);

    assert!(!dataset.is_empty());
    assert!(dataset.len() > 0);
}

#[test]
fn test_dataset_input_target_alignment() {
    let tokens: Vec<i64> = (0..50).collect();
    let dataset = DataSet::new(tokens, 8, 4);

    for i in 0..dataset.len() {
        let (input, target) = dataset.get(i).unwrap();

        assert_eq!(input.len(), 8);
        assert_eq!(target.len(), 8);

        // Each target token should be input shifted by 1
        for j in 0..8 {
            assert_eq!(target[j], input[j] + 1);
        }
    }
}

#[test]
fn test_dataset_stride_behavior() {
    let tokens: Vec<i64> = (0..30).collect();
    let max_length = 10;
    let stride = 5;

    let dataset = DataSet::new(tokens, max_length, stride);

    // First sample starts at 0
    let (input0, _) = dataset.get(0).unwrap();
    assert_eq!(input0[0], 0);

    // Second sample starts at stride (5)
    let (input1, _) = dataset.get(1).unwrap();
    assert_eq!(input1[0], 5);
}

#[test]
fn dataset_windows_are_exact() {
    let tokens: Vec<i64> = vec![10, 11, 12, 13, 14, 15, 16];
    let dataset = DataSet::new(tokens, 3, 2);
    // starts 0, 2 fit (start + 3 < 7); start 4 does not (4 + 3 == 7)
    assert_eq!(dataset.len(), 2);
    assert_eq!(dataset.input_ids, vec![vec![10, 11, 12], vec![12, 13, 14]]);
    assert_eq!(dataset.target_ids, vec![vec![11, 12, 13], vec![13, 14, 15]]);
}

#[test]
fn dataset_sample_count_formula() {
    // (50 - 8 - 1) / 4 + 1 samples
    let dataset = DataSet::new((0..50).collect(), 8, 4);
    assert_eq!(dataset.len(), 11);
    let (last_input, last_target) = dataset.get(10).unwrap();
    assert_eq!(last_input, &vec![40, 41, 42, 43, 44, 45, 46, 47]);
    assert_eq!(last_target, &vec![41, 42, 43, 44, 45, 46, 47, 48]);
}

#[test]
fn dataset_stride_larger_than_window_skips_tokens() {
    let dataset = DataSet::new((0..20).collect(), 2, 5);
    assert_eq!(dataset.len(), 4);
    assert_eq!(dataset.input_ids, vec![vec![0, 1], vec![5, 6], vec![10, 11], vec![15, 16]]);
    assert_eq!(dataset.target_ids, vec![vec![1, 2], vec![6, 7], vec![11, 12], vec![16, 17]]);
}

#[test]
fn dataset_too_short_is_empty() {
    let dataset = DataSet::new(vec![1, 2, 3], 3, 1);
    assert!(dataset.is_empty());
    assert_eq!(dataset.len(), 0);
    assert!(dataset.get(0).is_none());

    let dataset = DataSet::new(Vec::new(), 4, 2);
    assert!(dataset.is_empty());
}

#[test]
fn dataset_one_token_longer_than_window_gives_one_sample() {
    let dataset = DataSet::new(vec![7, 8, 9, 10], 3, 100);
    assert_eq!(dataset.len(), 1);
    let (input, target) = dataset.get(0).unwrap();
    assert_eq!(input, &vec![7, 8, 9]);
    assert_eq!(target, &vec![8, 9, 10]);
    assert!(dataset.get(1).is_none());
}

#[test]
fn dataset_target_is_input_shifted_by_one() {
    let tokens: Vec<i64> = vec![5, -3, 8, 8, 0, 42, 7, -1, 3];
    let dataset = DataSet::new(tokens.clone(), 4, 3);
    for i in 0..dataset.len() {
        let (input, target) = dataset.get(i).unwrap();
        for j in 0..3 {
            assert_eq!(target[j], input[j + 1]);
        }
        assert_eq!(target[3], tokens[i * 3 + 4]);
    }
}

#[test]
fn dataset_consecutive_inputs_overlap_by_stride() {
    let dataset = DataSet::new((100..140).collect(), 6, 2);
    for i in 0..dataset.len() - 1 {
        let (a, _) = dataset.get(i).unwrap();
        let (b, _) = dataset.get(i + 1).unwrap();
        for j in 0..4 {
            assert_eq!(b[j], a[j + 2]);
        }
    }
}

#[test]
fn dataset_zero_length_windows() {
    let dataset = DataSet::new(vec![1, 2, 3], 0, 2);
    // starts 0 and 2 are inside the tokens
    assert_eq!(dataset.len(), 2);
    assert!(dataset.input_ids.iter().all(|w| w.is_empty()));
    assert!(dataset.target_ids.iter().all(|w| w.is_empty()));
}

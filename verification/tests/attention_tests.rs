use zoea_lm::attention::{causal_mask, head_dimension, head_split_shape};

#[test]
fn head_dimension_divides_output_width() {
    assert_eq!(head_dimension(64, 4), 16);
    assert_eq!(head_dimension(64, 64), 1);
    assert_eq!(head_dimension(128, 8), 16);
    assert_eq!(head_dimension(10, 3), 3);
    assert_eq!(head_dimension(2, 4), 0);
}

#[test]
fn head_split_shape_recovers_heads() {
    for (dimensions, num_heads) in [(64, 1), (64, 2), (64, 4), (64, 8), (64, 64), (128, 8)] {
        let hd = head_dimension(dimensions, num_heads);
        let shape = head_split_shape(2, 8, dimensions, hd);
        assert_eq!(shape, [2, 8, num_heads, hd]);
        assert_eq!(shape.iter().product::<usize>(), 2 * 8 * dimensions);
    }
}

#[test]
fn head_split_shape_uneven() {
    assert_eq!(head_split_shape(1, 5, 10, 3), [1, 5, 3, 3]);
}

#[test]
fn causal_mask_small() {
    let f = false;
    let t = true;
    assert_eq!(causal_mask(3), vec![f, t, t, f, f, t, f, f, f]);
    assert_eq!(causal_mask(1), vec![f]);
    assert!(causal_mask(0).is_empty());
}

#[test]
fn causal_mask_entries_and_prefix() {
    let c = 16;
    let big = causal_mask(c);
    assert_eq!(big.len(), c * c);
    for i in 0..c {
        for j in 0..c {
            assert_eq!(big[i * c + j], j > i);
        }
    }
    let t = 8;
    let small = causal_mask(t);
    for i in 0..t {
        for j in 0..t {
            assert_eq!(big[i * c + j], small[i * t + j]);
        }
    }
}

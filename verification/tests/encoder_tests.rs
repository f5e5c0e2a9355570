use zoea_lm::encoder::Encoder;

#[test]
fn encoder_keeps_its_sizes() {
    let encoder = Encoder::new(50257, 1024, 768);
    assert_eq!(encoder.vocab_size(), 50257);
    assert_eq!(encoder.context_length(), 1024);
    assert_eq!(encoder.output_dimensions(), 768);
}

#[test]
fn encoder_sizes_are_not_swapped() {
    let encoder = Encoder::new(1, 2, 3);
    assert_eq!(
        (encoder.vocab_size(), encoder.context_length(), encoder.output_dimensions()),
        (1, 2, 3)
    );
}

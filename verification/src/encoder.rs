use vstd::prelude::*;

verus! {

/// The sizes that the token and position embedding tables of a model are built with.
pub struct Encoder {
    vocab_size: usize,
    context_length: usize,
    output_dimensions: usize,
}

impl Encoder {
    /// The number of distinct tokens the token embedding table has a row for.
    pub closed spec fn spec_vocab_size(&self) -> usize {
        self.vocab_size
    }

    /// The number of positions the position embedding table has a row for.
    pub closed spec fn spec_context_length(&self) -> usize {
        self.context_length
    }

    /// The width of every embedding vector.
    pub closed spec fn spec_output_dimensions(&self) -> usize {
        self.output_dimensions
    }

    pub fn new(vocab_size: usize, context_length: usize, output_dimensions: usize) -> (r: Self)
        ensures
            r.spec_vocab_size() == vocab_size,
            r.spec_context_length() == context_length,
            r.spec_output_dimensions() == output_dimensions,
    {
        Self { vocab_size, context_length, output_dimensions }
    }

    /// The number of rows of the token embedding table.
    pub fn vocab_size(&self) -> (r: usize)
        ensures
            r == self.spec_vocab_size(),
    {
        self.vocab_size
    }

    /// The number of rows of the position embedding table.
    pub fn context_length(&self) -> (r: usize)
        ensures
            r == self.spec_context_length(),
    {
        self.context_length
    }

    /// The width of both embedding tables.
    pub fn output_dimensions(&self) -> (r: usize)
        ensures
            r == self.spec_output_dimensions(),
    {
        self.output_dimensions
    }
}

} // verus!

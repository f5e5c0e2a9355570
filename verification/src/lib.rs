//! Data preparation and layout logic for a small GPT-style language model,
//! verified with Verus: cutting token sequences into training samples, pairing
//! windows of an encoded text, laying batches out as tensor rows, the causal
//! attention mask and the split of a projection into attention heads.
pub mod attention;
pub mod data;
pub mod dataloader;
pub mod encoder;

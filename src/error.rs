use vstd::prelude::*;

verus! {

/// Malformed bytes in a checkpoint file.
#[derive(Debug, Clone, Copy, PartialEq, Eq, Structural)]
pub enum FormatError {
    /// The first four bytes are not the expected signature.
    BadMagic,
    /// The file ends inside a field or a record.
    Truncated,
    /// A vocabulary entry has a negative length.
    BadVocabLength,
    /// A vocabulary entry is not valid UTF-8.
    BadVocabEncoding,
    /// A tensor record has an unsupported dimensionality or a negative name length.
    BadRecordHeader,
    /// A tensor record declares an unknown element type.
    BadRecordType,
}

/// Hyperparameters that the loader cannot work with.
#[derive(Debug, Clone, Copy, PartialEq, Eq, Structural)]
pub enum ConfigError {
    /// The quantization flag is not one of 0, 1, 2, 3.
    QuantFlag,
    /// The embedding dimension has no shard count.
    EmbeddingDim,
    /// A size or count is negative, or the feed-forward multiplier is not positive.
    HyperParams,
    /// The arena does not fit in memory, or a tensor does not fit in the arena.
    ArenaSize,
}

/// Every way a load can fail.
#[derive(Debug, Clone, Copy, PartialEq, Eq, Structural)]
pub enum LoadError {
    Format(FormatError),
    Config(ConfigError),
    /// A record names no tensor of the registry.
    UnknownTensor,
    /// A record's shape or byte size disagrees with the registry's tensor.
    ShapeMismatch,
}

} // verus!

//! Loader for sharded LLaMA checkpoints: header parsing, arena sizing, a tensor
//! registry laid out in one arena, and reconstruction of each tensor from its
//! shards.

pub mod arena;
pub mod error;
pub mod format;
pub mod hparams;
pub mod loader;
pub mod model;
pub mod registry;

pub use error::{ConfigError, FormatError, LoadError};
pub use format::{parse_header, GptVocab, Header, MAGIC};
pub use hparams::{arena_size, llama_n_parts, n_ff, quant_type_from_flag, LlamaHyperParams, QuantType};
pub use loader::PartStats;
pub use model::{part_suffix, LlamaModel};
pub use registry::{entry_name_bytes, SplitAxis};

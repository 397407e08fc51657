use vstd::prelude::*;

use vstd::utf8::{decode_utf8, valid_utf8};

use crate::error::{FormatError, LoadError};
use crate::hparams::{check_hparams, valid_hparams, LlamaHyperParams};

verus! {

/// Signature in the first four bytes of a primary checkpoint file.
pub const MAGIC: i32 = 0x67676d6c;

/// Byte offset of the vocabulary table: the magic and seven header fields.
pub const VOCAB_START: usize = 32;

/// The unsigned little-endian value of the four bytes of `b` at `at`.
pub open spec fn le_u32(b: Seq<u8>, at: int) -> int {
    b[at] as int + 256 * (b[at + 1] as int) + 65536 * (b[at + 2] as int) + 16777216 * (
    b[at + 3] as int)
}

/// The signed (two's complement) little-endian value of the four bytes of `b` at `at`.
pub open spec fn le_i32(b: Seq<u8>, at: int) -> int {
    let u = le_u32(b, at);
    if u >= 0x8000_0000 {
        u - 0x1_0000_0000
    } else {
        u
    }
}

/// Reads a little-endian `i32` at `at`, or `None` where fewer than four bytes remain.
pub fn read_i32(b: &[u8], at: usize) -> (r: Option<i32>)
    ensures
        r is Some <==> at + 4 <= b@.len(),
        r is Some ==> r.unwrap() as int == le_i32(b@, at as int),
{
    if at > b.len() || b.len() - at < 4 {
        return None;
    }
    let u: u32 = b[at] as u32 + 256 * (b[at + 1] as u32) + 65536 * (b[at + 2] as u32) + 16777216
        * (b[at + 3] as u32);
    if u >= 0x8000_0000 {
        Some(((u - 0x8000_0000) as i32) - 0x7fff_ffff - 1)
    } else {
        Some(u as i32)
    }
}

/// Relies on `std::str::from_utf8`: it accepts exactly the valid UTF-8
/// sequences and returns the characters they encode.
#[verifier::external_body]
fn utf8_to_string(b: &[u8]) -> (r: Option<String>)
    ensures
        match r {
            Some(s) => valid_utf8(b@) && s@ == decode_utf8(b@),
            None => !valid_utf8(b@),
        },
{
    match std::str::from_utf8(b) {
        Ok(s) => Some(s.to_string()),
        Err(_) => None,
    }
}

/// The hyperparameters stored at the start of `b`, with `n_ctx` supplied by the caller.
pub open spec fn hparams_at(b: Seq<u8>, n_ctx: i32) -> LlamaHyperParams {
    LlamaHyperParams {
        n_vocab: le_i32(b, 4) as i32,
        n_ctx,
        n_embd: le_i32(b, 8) as i32,
        n_mult: le_i32(b, 12) as i32,
        n_head: le_i32(b, 16) as i32,
        n_layer: le_i32(b, 20) as i32,
        n_rot: le_i32(b, 24) as i32,
        f16_: le_i32(b, 28) as i32,
    }
}

/// Puts `ws` in front of the words of a vocabulary parse.
pub open spec fn prepend_words(
    ws: Seq<Seq<char>>,
    r: Result<(Seq<Seq<char>>, int), LoadError>,
) -> Result<(Seq<Seq<char>>, int), LoadError> {
    match r {
        Ok((rest, end)) => Ok((ws + rest, end)),
        Err(e) => Err(e),
    }
}

/// Parse of `n` vocabulary entries starting at `pos`: the words and the
/// offset after the last one.
pub open spec fn vocab_spec(b: Seq<u8>, pos: int, n: nat) -> Result<
    (Seq<Seq<char>>, int),
    LoadError,
>
    decreases n,
{
    if n == 0 {
        Ok((seq![], pos))
    } else if pos + 4 > b.len() {
        Err(LoadError::Format(FormatError::Truncated))
    } else {
        let len = le_i32(b, pos);
        if len < 0 {
            Err(LoadError::Format(FormatError::BadVocabLength))
        } else if pos + 4 + len > b.len() {
            Err(LoadError::Format(FormatError::Truncated))
        } else {
            let bytes = b.subrange(pos + 4, pos + 4 + len);
            if !valid_utf8(bytes) {
                Err(LoadError::Format(FormatError::BadVocabEncoding))
            } else {
                prepend_words(
                    seq![decode_utf8(bytes)],
                    vocab_spec(b, pos + 4 + len, (n - 1) as nat),
                )
            }
        }
    }
}

/// Parse of a primary file's header: the hyperparameters, the vocabulary,
/// and the header length at which tensor records begin.
pub open spec fn header_spec(b: Seq<u8>, n_ctx: i32) -> Result<
    (LlamaHyperParams, Seq<Seq<char>>, int),
    LoadError,
> {
    if b.len() < 4 {
        Err(LoadError::Format(FormatError::Truncated))
    } else if le_i32(b, 0) != MAGIC {
        Err(LoadError::Format(FormatError::BadMagic))
    } else if b.len() < VOCAB_START {
        Err(LoadError::Format(FormatError::Truncated))
    } else {
        let h = hparams_at(b, n_ctx);
        if !valid_hparams(h) {
            Err(check_error(h))
        } else {
            match vocab_spec(b, VOCAB_START as int, h.n_vocab as nat) {
                Ok((words, end)) => Ok((h, words, end)),
                Err(e) => Err(e),
            }
        }
    }
}

/// The configuration error reported for invalid hyperparameters.
pub open spec fn check_error(h: LlamaHyperParams) -> LoadError {
    if crate::hparams::n_parts_spec(h.n_embd as int) is None {
        LoadError::Config(crate::error::ConfigError::EmbeddingDim)
    } else if crate::hparams::quant_of_flag(h.f16_ as int) is None {
        LoadError::Config(crate::error::ConfigError::QuantFlag)
    } else {
        LoadError::Config(crate::error::ConfigError::HyperParams)
    }
}

/// The vocabulary: token id `i` is `mapping[i]`.
pub struct GptVocab {
    pub mapping: Vec<String>,
}

impl GptVocab {
    /// The words of the vocabulary, in token order.
    pub open spec fn words(&self) -> Seq<Seq<char>> {
        self.mapping@.map_values(|s: String| s@)
    }
}

/// A parsed primary-file header.
pub struct Header {
    pub hparams: LlamaHyperParams,
    pub vocab: GptVocab,
    /// Offset of the first tensor record, the same in every shard file.
    pub header_len: usize,
}

/// Parses the vocabulary table of `n` entries at `start`.
fn parse_vocab(b: &[u8], start: usize, n: i32) -> (r: Result<(GptVocab, usize), LoadError>)
    requires
        n >= 0,
    ensures
        match vocab_spec(b@, start as int, n as nat) {
            Ok((words, end)) => r is Ok && r->Ok_0.0.words() == words && r->Ok_0.1 == end,
            Err(e) => r == Err::<(GptVocab, usize), LoadError>(e),
        },
{
    let mut mapping: Vec<String> = Vec::new();
    let mut pos: usize = start;
    let mut i: i32 = 0;
    while i < n
        invariant
            0 <= i <= n,
            vocab_spec(b@, start as int, n as nat) == prepend_words(
                mapping@.map_values(|s: String| s@),
                vocab_spec(b@, pos as int, (n - i) as nat),
            ),
        decreases n - i,
    {
        let ghost words = mapping@.map_values(|s: String| s@);
        let len = match read_i32(b, pos) {
            Some(l) => l,
            None => return Err(LoadError::Format(FormatError::Truncated)),
        };
        if len < 0 {
            return Err(LoadError::Format(FormatError::BadVocabLength));
        }
        let lu = len as usize;
        if b.len() - (pos + 4) < lu {
            return Err(LoadError::Format(FormatError::Truncated));
        }
        let bytes = vstd::slice::slice_subrange(b, pos + 4, pos + 4 + lu);
        let word = match utf8_to_string(bytes) {
            Some(w) => w,
            None => return Err(LoadError::Format(FormatError::BadVocabEncoding)),
        };
        let ghost w = word@;
        mapping.push(word);
        proof {
            let rest = vocab_spec(b@, (pos + 4 + lu) as int, (n - i - 1) as nat);
            assert(mapping@.map_values(|s: String| s@) =~= words + seq![w]);
            match rest {
                Ok((ws, end)) => {
                    assert(words + (seq![w] + ws) =~= (words + seq![w]) + ws);
                },
                Err(_) => {},
            }
        }
        pos = pos + 4 + lu;
        i = i + 1;
    }
    proof {
        assert(mapping@.map_values(|s: String| s@) + seq![] =~= mapping@.map_values(
            |s: String| s@,
        ));
    }
    Ok((GptVocab { mapping }, pos))
}

/// Parses the magic, the hyperparameters (with `n_ctx` supplied by the
/// caller) and the vocabulary of a primary checkpoint file.
pub fn parse_header(b: &[u8], n_ctx: i32) -> (r: Result<Header, LoadError>)
    ensures
        match header_spec(b@, n_ctx) {
            Ok((h, words, end)) => r is Ok && r->Ok_0.hparams == h && r->Ok_0.vocab.words()
                == words && r->Ok_0.header_len == end,
            Err(e) => r is Err && r->Err_0 == e,
        },
{
    let magic = match read_i32(b, 0) {
        Some(m) => m,
        None => return Err(LoadError::Format(FormatError::Truncated)),
    };
    if magic != MAGIC {
        return Err(LoadError::Format(FormatError::BadMagic));
    }
    if b.len() < VOCAB_START {
        return Err(LoadError::Format(FormatError::Truncated));
    }
    let hparams = LlamaHyperParams {
        n_vocab: read_i32(b, 4).unwrap(),
        n_ctx,
        n_embd: read_i32(b, 8).unwrap(),
        n_mult: read_i32(b, 12).unwrap(),
        n_head: read_i32(b, 16).unwrap(),
        n_layer: read_i32(b, 20).unwrap(),
        n_rot: read_i32(b, 24).unwrap(),
        f16_: read_i32(b, 28).unwrap(),
    };
    check_hparams(&hparams)?;
    let (vocab, header_len) = parse_vocab(b, VOCAB_START, hparams.n_vocab)?;
    Ok(Header { hparams, vocab, header_len })
}

} // verus!

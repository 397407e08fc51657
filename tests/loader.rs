use llama_rs::arena::Arena;
use llama_rs::{
    arena_size, entry_name_bytes, part_suffix, llama_n_parts, n_ff, parse_header, quant_type_from_flag,
    ConfigError, FormatError, LlamaHyperParams, LlamaModel, LoadError, QuantType, MAGIC,
};

fn push_i32(v: &mut Vec<u8>, x: i32) {
    v.extend_from_slice(&x.to_le_bytes());
}

/// Magic, the seven stored header fields, then the vocabulary.
fn header_bytes(fields: [i32; 7], words: &[&[u8]]) -> Vec<u8> {
    let mut v = Vec::new();
    push_i32(&mut v, MAGIC);
    for f in fields {
        push_i32(&mut v, f);
    }
    for w in words {
        push_i32(&mut v, w.len() as i32);
        v.extend_from_slice(w);
    }
    v
}

fn push_record(v: &mut Vec<u8>, name: &str, dims: &[i32], ftype: i32, data: &[u8]) {
    push_i32(v, dims.len() as i32);
    push_i32(v, name.len() as i32);
    push_i32(v, ftype);
    for d in dims {
        push_i32(v, *d);
    }
    v.extend_from_slice(name.as_bytes());
    v.extend_from_slice(data);
}

fn pattern(len: usize, seed: u8) -> Vec<u8> {
    (0..len).map(|i| (i as u8).wrapping_mul(31).wrapping_add(seed)).collect()
}

fn hp(n_vocab: i32, n_ctx: i32, n_embd: i32, n_mult: i32, n_layer: i32, f16_: i32) -> LlamaHyperParams {
    LlamaHyperParams { n_vocab, n_ctx, n_embd, n_mult, n_head: 32, n_layer, n_rot: 128, f16_ }
}

const WORDS: [&[u8]; 4] = [b"<unk>", b"a", b"b", b"c"];

/// A one-shard model (n_embd 4096) without layers, in 32-bit floats.
fn small_primary() -> Vec<u8> {
    header_bytes([4, 4096, 256, 32, 0, 128, 0], &WORDS)
}

#[test]
fn shard_table() {
    assert_eq!(llama_n_parts(4096), Ok(1));
    assert_eq!(llama_n_parts(5120), Ok(2));
    assert_eq!(llama_n_parts(6656), Ok(3));
    assert_eq!(llama_n_parts(8192), Ok(8));
    assert_eq!(llama_n_parts(8), Err(LoadError::Config(ConfigError::EmbeddingDim)));
    assert_eq!(llama_n_parts(4097), Err(LoadError::Config(ConfigError::EmbeddingDim)));
}

#[test]
fn quant_flags() {
    assert_eq!(quant_type_from_flag(0), Ok(QuantType::F32));
    assert_eq!(quant_type_from_flag(1), Ok(QuantType::F16));
    assert_eq!(quant_type_from_flag(2), Ok(QuantType::Q4_0));
    assert_eq!(quant_type_from_flag(3), Ok(QuantType::Q4_1));
    assert_eq!(quant_type_from_flag(4), Err(LoadError::Config(ConfigError::QuantFlag)));
    assert_eq!(quant_type_from_flag(-1), Err(LoadError::Config(ConfigError::QuantFlag)));
    assert_eq!(QuantType::Q4_0.type_size(), 20);
    assert_eq!(QuantType::Q4_1.type_size(), 24);
    assert_eq!(QuantType::Q4_0.block_size(), 32);
    assert_eq!(QuantType::F16.type_size(), 2);
}

#[test]
fn feed_forward_width() {
    assert_eq!(n_ff(&hp(4, 16, 4096, 256, 1, 0)), 11008);
    assert_eq!(n_ff(&hp(4, 16, 5120, 256, 1, 0)), 13824);
    assert_eq!(n_ff(&hp(4, 16, 4096, 1, 1, 0)), 10922);
}

#[test]
fn arena_size_exact() {
    assert_eq!(arena_size(&hp(4, 16, 4096, 256, 0, 0)), 148736);
    assert_eq!(arena_size(&hp(4, 16, 4096, 256, 1, 2)), 127082240);
}

#[test]
fn arena_size_is_deterministic() {
    let a = hp(32000, 512, 5120, 256, 40, 2);
    let b = hp(4, 16, 4096, 256, 1, 0);
    let first = arena_size(&a);
    let _ = arena_size(&b);
    let second = arena_size(&a);
    assert_eq!(first, second);
    assert_eq!(arena_size(&b), arena_size(&b.clone()));
}

#[test]
fn layer_names() {
    assert_eq!(entry_name_bytes(0), b"tok_embeddings.weight".to_vec());
    assert_eq!(entry_name_bytes(1), b"norm.weight".to_vec());
    assert_eq!(entry_name_bytes(2), b"output.weight".to_vec());
    assert_eq!(entry_name_bytes(3), b"layers.0.attention_norm.weight".to_vec());
    assert_eq!(entry_name_bytes(3 + 9 * 12 + 4), b"layers.12.attention.wo.weight".to_vec());
    assert_eq!(entry_name_bytes(3 + 9 * 7 + 7), b"layers.7.feed_forward.w2.weight".to_vec());
}

#[test]
fn shard_suffixes() {
    assert_eq!(part_suffix(0), b"".to_vec());
    assert_eq!(part_suffix(1), b".1".to_vec());
    assert_eq!(part_suffix(7), b".7".to_vec());
    assert_eq!(part_suffix(12), b".12".to_vec());
}

#[test]
fn load_part_stops_at_the_failing_record() {
    let primary = small_primary();
    let (mut m, _, header_len) = LlamaModel::load(&primary, 16).unwrap();
    let norm = pattern(4096 * 4, 6);
    let mut b = primary.clone();
    push_record(&mut b, "norm.weight", &[4096], 0, &norm);
    push_record(&mut b, "layers.0.attention.wz.weight", &[4096], 0, &pattern(4096 * 4, 2));
    push_record(&mut b, "output.weight", &[4096, 4], 0, &pattern(4096 * 4 * 4, 3));
    assert_eq!(m.load_part(&b, header_len, 0).err(), Some(LoadError::UnknownTensor));
    assert_eq!(m.tensor_data(1), norm);
    assert!(m.tensor_data(2).iter().all(|x| *x == 0));
}

#[test]
fn header_parses_vocabulary() {
    let words: [&[u8]; 3] = [b"", "\u{e9}t\u{e9}".as_bytes(), b"x"];
    let mut b = header_bytes([3, 4096, 256, 32, 2, 128, 1], &words);
    let len_before_records = b.len();
    push_i32(&mut b, 7);
    let h = parse_header(&b, 512).unwrap();
    assert_eq!(h.hparams, hp(3, 512, 4096, 256, 2, 1));
    assert_eq!(h.vocab.mapping, vec!["".to_string(), "\u{e9}t\u{e9}".to_string(), "x".to_string()]);
    assert_eq!(h.header_len, len_before_records);
}

#[test]
fn flipped_magic_is_format_error() {
    for i in 0..4 {
        let mut b = small_primary();
        b[i] ^= 0x01;
        assert_eq!(parse_header(&b, 16).err(), Some(LoadError::Format(FormatError::BadMagic)));
        assert!(LlamaModel::load(&b, 16).is_err());
        assert_eq!(LlamaModel::load(&b, 16).err(), Some(LoadError::Format(FormatError::BadMagic)));
    }
}

#[test]
fn unsupported_embedding_is_config_error() {
    // The vocabulary that follows is malformed: the dimension is refused first.
    let mut b = header_bytes([4, 8, 4, 2, 1, 2, 0], &[]);
    push_i32(&mut b, -5);
    assert_eq!(parse_header(&b, 16).err(), Some(LoadError::Config(ConfigError::EmbeddingDim)));
    let b = header_bytes([4, 6000, 256, 32, 1, 128, 0], &WORDS);
    assert_eq!(LlamaModel::load(&b, 16).err(), Some(LoadError::Config(ConfigError::EmbeddingDim)));
}

#[test]
fn bad_header_fields() {
    let b = header_bytes([4, 4096, 256, 32, 0, 128, 7], &WORDS);
    assert_eq!(parse_header(&b, 16).err(), Some(LoadError::Config(ConfigError::QuantFlag)));
    let b = header_bytes([4, 4096, 0, 32, 0, 128, 0], &WORDS);
    assert_eq!(parse_header(&b, 16).err(), Some(LoadError::Config(ConfigError::HyperParams)));
    let b = header_bytes([4, 4096, 256, 32, -1, 128, 0], &WORDS);
    assert_eq!(parse_header(&b, 16).err(), Some(LoadError::Config(ConfigError::HyperParams)));
    let b = small_primary();
    assert_eq!(parse_header(&b[..20], 16).err(), Some(LoadError::Format(FormatError::Truncated)));
    assert_eq!(parse_header(&b[..2], 16).err(), Some(LoadError::Format(FormatError::Truncated)));
    assert_eq!(
        parse_header(&b[..b.len() - 1], 16).err(),
        Some(LoadError::Format(FormatError::Truncated))
    );
}

#[test]
fn bad_vocabulary_entries() {
    let mut b = header_bytes([1, 4096, 256, 32, 0, 128, 0], &[]);
    push_i32(&mut b, -2);
    assert_eq!(parse_header(&b, 16).err(), Some(LoadError::Format(FormatError::BadVocabLength)));
    let b = header_bytes([1, 4096, 256, 32, 0, 128, 0], &[&[0xff, 0xfe]]);
    assert_eq!(parse_header(&b, 16).err(), Some(LoadError::Format(FormatError::BadVocabEncoding)));
}

#[test]
fn oversized_model_is_refused() {
    let h = hp(i32::MAX, i32::MAX, 8192, 256, i32::MAX, 0);
    assert_eq!(LlamaModel::new(&h).err(), Some(LoadError::Config(ConfigError::ArenaSize)));
}

#[test]
fn registry_of_small_model() {
    let (m, vocab, header_len) = LlamaModel::load(&small_primary(), 16).unwrap();
    assert_eq!(vocab.mapping.len(), 4);
    assert_eq!(header_len, small_primary().len());
    assert_eq!(m.n_parts, 1);
    assert_eq!(m.tensors.len(), 3);
    assert_eq!(m.arena.data.len(), 148736);
    assert_eq!(m.find_tensor(b"norm.weight"), Some(1));
    assert_eq!(m.find_tensor(b"output.weight"), Some(2));
    assert_eq!(m.find_tensor(b"layers.0.attention.wq.weight"), None);
    let t = m.tensors[0].tensor;
    assert_eq!((t.qtype, t.ne0, t.ne1, t.offset, t.nbytes), (QuantType::F32, 4096, 4, 0, 65536));
    let n = m.tensors[1].tensor;
    assert_eq!((n.ne0, n.ne1, n.offset, n.nbytes), (4096, 1, 65536, 16384));
    assert_eq!(m.memory_k.ne0, 0);
}

#[test]
fn single_shard_round_trip() {
    let primary = small_primary();
    let (mut m, _, header_len) = LlamaModel::load(&primary, 16).unwrap();
    let tok = pattern(4096 * 4 * 4, 1);
    let norm = pattern(4096 * 4, 2);
    let out = pattern(4096 * 4 * 4, 3);
    let mut b = primary.clone();
    push_record(&mut b, "tok_embeddings.weight", &[4096, 4], 0, &tok);
    push_record(&mut b, "norm.weight", &[4096], 0, &norm);
    push_record(&mut b, "output.weight", &[4096, 4], 0, &out);
    let stats = m.load_part(&b, header_len, 0).unwrap();
    assert_eq!(stats.n_tensors, 3);
    assert_eq!(stats.total_size, b.len() - header_len);
    assert_eq!(m.tensor_data(0), tok);
    assert_eq!(m.tensor_data(1), norm);
    assert_eq!(m.tensor_data(2), out);
}

#[test]
fn two_shard_reconstruction() {
    let primary = header_bytes([4, 5120, 256, 40, 0, 128, 0], &WORDS);
    let (mut m, _, header_len) = LlamaModel::load(&primary, 16).unwrap();
    assert_eq!(m.n_parts, 2);
    let row = 5120 * 4;
    let full_tok = pattern(row * 4, 5);
    let full_out = pattern(row * 4, 9);
    let norm0 = pattern(5120 * 4, 7);
    let norm1 = pattern(5120 * 4, 8);
    for part in 0..2usize {
        let mut b = primary.clone();
        // Each shard holds the `part`-th half of the rows of the embedding table.
        push_record(&mut b, "tok_embeddings.weight", &[5120, 2], 0, &full_tok[part * 2 * row..(part + 1) * 2 * row]);
        push_record(&mut b, "norm.weight", &[5120], 0, if part == 0 { &norm0 } else { &norm1 });
        // Each shard holds the `part`-th half of every row of the output projection.
        let mut out = Vec::new();
        for r in 0..4 {
            let s = r * row + part * row / 2;
            out.extend_from_slice(&full_out[s..s + row / 2]);
        }
        push_record(&mut b, "output.weight", &[2560, 4], 0, &out);
        let stats = m.load_part(&b, header_len, part as u64).unwrap();
        assert_eq!(stats.n_tensors, 3);
    }
    assert_eq!(m.tensor_data(0), full_tok);
    assert_eq!(m.tensor_data(1), norm0);
    assert_eq!(m.tensor_data(2), full_out);
}

#[test]
fn embedding_split_by_columns_is_refused() {
    let primary = header_bytes([4, 5120, 256, 40, 0, 128, 0], &WORDS);
    let (mut m, _, header_len) = LlamaModel::load(&primary, 16).unwrap();
    let mut b = primary.clone();
    push_record(&mut b, "tok_embeddings.weight", &[2560, 4], 0, &pattern(2560 * 4 * 4, 1));
    assert_eq!(m.load_part(&b, header_len, 0).err(), Some(LoadError::ShapeMismatch));
}

#[test]
fn off_by_one_element_count_is_shape_mismatch() {
    let primary = small_primary();
    let (mut m, _, header_len) = LlamaModel::load(&primary, 16).unwrap();
    let mut b = primary.clone();
    push_record(&mut b, "tok_embeddings.weight", &[4096, 5], 0, &pattern(4096 * 5 * 4, 1));
    assert_eq!(m.load_part(&b, header_len, 0).err(), Some(LoadError::ShapeMismatch));
    assert!(m.tensor_data(0).iter().all(|x| *x == 0));
    let mut b = primary.clone();
    push_record(&mut b, "norm.weight", &[4095], 0, &pattern(4095 * 4, 1));
    assert_eq!(m.load_part(&b, header_len, 0).err(), Some(LoadError::ShapeMismatch));
    assert!(m.tensor_data(1).iter().all(|x| *x == 0));
}

#[test]
fn earlier_records_stay_when_a_later_one_fails() {
    let primary = small_primary();
    let (mut m, _, header_len) = LlamaModel::load(&primary, 16).unwrap();
    let norm = pattern(4096 * 4, 4);
    let mut b = primary.clone();
    push_record(&mut b, "norm.weight", &[4096], 0, &norm);
    push_record(&mut b, "output.weight", &[4096, 4], 1, &pattern(4096 * 4 * 2, 1));
    assert_eq!(m.load_part(&b, header_len, 0).err(), Some(LoadError::ShapeMismatch));
    assert_eq!(m.tensor_data(1), norm);
    assert!(m.tensor_data(2).iter().all(|x| *x == 0));
}

#[test]
fn record_errors() {
    let primary = small_primary();
    let (mut m, _, header_len) = LlamaModel::load(&primary, 16).unwrap();
    let mut b = primary.clone();
    push_record(&mut b, "nope.weight", &[4096], 0, &pattern(4096 * 4, 1));
    assert_eq!(m.load_part(&b, header_len, 0).err(), Some(LoadError::UnknownTensor));
    let mut b = primary.clone();
    push_record(&mut b, "norm.weight", &[4096], 9, &pattern(4096 * 4, 1));
    assert_eq!(m.load_part(&b, header_len, 0).err(), Some(LoadError::Format(FormatError::BadRecordType)));
    let mut b = primary.clone();
    push_record(&mut b, "norm.weight", &[4096], 0, &pattern(4096 * 4 - 1, 1));
    assert_eq!(m.load_part(&b, header_len, 0).err(), Some(LoadError::Format(FormatError::Truncated)));
    let mut b = primary.clone();
    push_record(&mut b, "norm.weight", &[4096, 1, 1], 0, &[]);
    assert_eq!(m.load_part(&b, header_len, 0).err(), Some(LoadError::Format(FormatError::BadRecordHeader)));
    assert!(m.tensor_data(1).iter().all(|x| *x == 0));
    let empty = primary.clone();
    assert_eq!(m.load_part(&empty, header_len, 0).unwrap().n_tensors, 0);
}

#[test]
fn arena_bounds() {
    let mut a = Arena::new(100);
    let t = a.new_tensor(QuantType::F32, 5, 5).unwrap();
    assert_eq!((t.offset, t.nbytes, a.used), (0, 100, 100));
    assert_eq!(a.new_tensor(QuantType::F32, 1, 1).err(), Some(LoadError::Config(ConfigError::ArenaSize)));
    assert_eq!(a.used, 100);
    a.write(10, &[1, 2, 3, 4], 1, 2);
    assert_eq!(&a.data[9..13], &[0, 2, 3, 0]);
}

use vstd::prelude::*;

use crate::arena::{Arena, TensorHandle};
use crate::error::{ConfigError, LoadError};
use crate::format::{check_error, header_spec, parse_header, GptVocab};
use crate::hparams::{
    arena_size, arena_size_spec, check_hparams, llama_n_parts, n_ff_spec, n_parts_spec, scaled,
    valid_hparams, wtype_of, LlamaHyperParams, QuantType,
};
use crate::loader::{entries_in, load_records, lookup, part_spec, PartStats};
use crate::registry::{
    build_registry, decimal, push_decimal, entries_bytes, entry_bytes, lemma_entries_bytes_mono, n_entries,
    registry_matches, RegistryEntry,
};

verus! {

/// Elements of each key/value cache buffer: one embedding per layer and
/// context position.
pub open spec fn n_mem_elems(h: LlamaHyperParams) -> int {
    h.n_embd * h.n_layer * h.n_ctx
}

/// Bytes that the model places in its arena: every weight tensor and the
/// two key/value cache buffers.
pub open spec fn model_bytes(h: LlamaHyperParams) -> int {
    entries_bytes(h, n_entries(h) as nat) + 2 * scaled(n_mem_elems(h), QuantType::F32)
}

/// Suffix of the file name of shard `part`: none for shard 0, `.{part}`
/// for the others.
pub open spec fn part_suffix_spec(part: nat) -> Seq<u8> {
    if part == 0 {
        seq![]
    } else {
        seq![46u8] + decimal(part)
    }
}

/// Builds the suffix that the primary path takes for shard `part`.
pub fn part_suffix(part: u64) -> (r: Vec<u8>)
    ensures
        r@ == part_suffix_spec(part as nat),
{
    let mut out: Vec<u8> = Vec::new();
    if part > 0 {
        out.push(46u8);
        push_decimal(&mut out, part);
        assert(out@ =~= part_suffix_spec(part as nat));
    } else {
        assert(out@ =~= part_suffix_spec(part as nat));
    }
    out
}

/// A loaded model: its hyperparameters, its shard count, the arena that owns
/// all tensor bytes, and handles into it.
pub struct LlamaModel {
    pub hparams: LlamaHyperParams,
    pub n_parts: u64,
    pub arena: Arena,
    pub tensors: Vec<RegistryEntry>,
    pub memory_k: TensorHandle,
    pub memory_v: TensorHandle,
}

proof fn lemma_arena_size_bounds_mem(h: LlamaHyperParams)
    requires
        valid_hparams(h),
    ensures
        arena_size_spec(h) >= 8 * n_mem_elems(h),
        n_mem_elems(h) >= 0,
{
    let e = h.n_embd as int;
    let l = h.n_layer as int;
    let c = h.n_ctx as int;
    let v = h.n_vocab as int;
    let f = n_ff_spec(h);
    let w = wtype_of(h);
    assert(f >= 0) by (nonlinear_arith)
        requires
            f == (((8 * h.n_embd) / 3 + h.n_mult - 1) / (h.n_mult as int)) * h.n_mult,
            h.n_mult > 0,
            h.n_embd > 0,
    ;
    assert(e * v >= 0 && l * e >= 0 && l * e * e >= 0 && l * f * e >= 0 && c * l * e >= 0 && e * l
        * c == c * l * e) by (nonlinear_arith)
        requires
            e > 0,
            v >= 0,
            l >= 0,
            f >= 0,
            c >= 0,
    ;
    assert forall|n: int, q: QuantType| n >= 0 implies #[trigger] scaled(n, q) >= 0 by {
        assert(n * crate::hparams::type_size_spec(q) >= 0) by (nonlinear_arith)
            requires
                n >= 0,
                crate::hparams::type_size_spec(q) > 0,
        ;
    }
}

/// Bytes that the nine tensors of one layer take.
pub open spec fn layer_bytes(h: LlamaHyperParams) -> int {
    entry_bytes(h, 3) + entry_bytes(h, 4) + entry_bytes(h, 5) + entry_bytes(h, 6) + entry_bytes(h, 7)
        + entry_bytes(h, 8) + entry_bytes(h, 9) + entry_bytes(h, 10) + entry_bytes(h, 11)
}

proof fn lemma_layer_entry_periodic(h: LlamaHyperParams, i: int, j: int)
    requires
        i >= 0,
        0 <= j < 9,
    ensures
        entry_bytes(h, 3 + 9 * i + j) == entry_bytes(h, 3 + j),
{
    assert((3 + 9 * i + j - 3) % 9 == j && (3 + j - 3) % 9 == j) by (nonlinear_arith)
        requires
            i >= 0,
            0 <= j < 9,
    ;
}

proof fn lemma_entries_bytes_layers(h: LlamaHyperParams, i: nat)
    ensures
        entries_bytes(h, (3 + 9 * i) as nat) == entries_bytes(h, 3) + i * layer_bytes(h),
    decreases i,
{
    if i == 0 {
        assert(0 * layer_bytes(h) == 0) by (nonlinear_arith);
    } else {
        let m = (i - 1) as nat;
        lemma_entries_bytes_layers(h, m);
        let n: int = 3 + 9 * (m as int);
        lemma_layer_prefix(h, m as int, 9);
        assert(partial_layer(h, 9) == layer_bytes(h)) by {
            reveal_with_fuel(partial_layer, 10);
        }
        assert(m * layer_bytes(h) + layer_bytes(h) == i * layer_bytes(h)) by (nonlinear_arith)
            requires
                m + 1 == i,
        ;
        assert(3 + 9 * i == n + 9);
    }
}

proof fn lemma_layer_prefix(h: LlamaHyperParams, m: int, j: int)
    requires
        m >= 0,
        0 <= j <= 9,
    ensures
        entries_bytes(h, (3 + 9 * m + j) as nat) == entries_bytes(h, (3 + 9 * m) as nat)
            + partial_layer(h, j),
    decreases j,
{
    if j > 0 {
        lemma_layer_prefix(h, m, j - 1);
        lemma_layer_entry_periodic(h, m, j - 1);
        assert(entries_bytes(h, (3 + 9 * m + j) as nat) == entries_bytes(
            h,
            (3 + 9 * m + j - 1) as nat,
        ) + entry_bytes(h, 3 + 9 * m + j - 1));
    }
}

/// Bytes of the first `j` tensors of a layer.
spec fn partial_layer(h: LlamaHyperParams, j: int) -> int
    decreases j,
{
    if j <= 0 {
        0
    } else {
        partial_layer(h, j - 1) + entry_bytes(h, 3 + j - 1)
    }
}

proof fn lemma_scaled_superadditive(l: int, x: int, q: QuantType)
    requires
        l >= 0,
        x >= 0,
    ensures
        l * scaled(x, q) <= scaled(l * x, q),
{
    let ts = crate::hparams::type_size_spec(q);
    let bs = crate::hparams::block_size_spec(q);
    let s = x * ts / bs;
    assert(s * bs <= x * ts) by (nonlinear_arith)
        requires
            s == x * ts / bs,
            bs > 0,
    ;
    assert(l * s * bs <= l * x * ts) by (nonlinear_arith)
        requires
            s * bs <= x * ts,
            l >= 0,
    ;
    assert(l * s <= (l * x * ts) / bs) by (nonlinear_arith)
        requires
            l * s * bs <= l * x * ts,
            bs > 0,
    ;
    assert((l * x) * ts == l * x * ts) by (nonlinear_arith);
}

/// The arena size is enough: the weight tensors and the key/value cache
/// buffers of a model always fit in the capacity computed for it.
pub proof fn lemma_model_fits_arena(h: LlamaHyperParams)
    requires
        valid_hparams(h),
    ensures
        model_bytes(h) <= arena_size_spec(h),
{
    let e = h.n_embd as int;
    let l = h.n_layer as int;
    let c = h.n_ctx as int;
    let f = n_ff_spec(h);
    let w = wtype_of(h);
    let full = QuantType::F32;
    lemma_arena_size_bounds_mem(h);
    lemma_entries_bytes_layers(h, l as nat);
    assert(f >= 0) by (nonlinear_arith)
        requires
            f == (((8 * h.n_embd) / 3 + h.n_mult - 1) / (h.n_mult as int)) * h.n_mult,
            h.n_mult > 0,
            h.n_embd > 0,
    ;
    reveal_with_fuel(entries_bytes, 4);
    assert(entries_bytes(h, 3) == scaled(e * h.n_vocab, w) + scaled(e * 1, full) + scaled(
        e * h.n_vocab,
        w,
    ));
    assert(layer_bytes(h) == scaled(e * 1, full) + scaled(e * e, w) + scaled(e * e, w) + scaled(
        e * e,
        w,
    ) + scaled(e * e, w) + scaled(e * 1, full) + scaled(e * f, w) + scaled(f * e, w) + scaled(
        e * f,
        w,
    ));
    lemma_scaled_superadditive(l, e, full);
    lemma_scaled_superadditive(l, e * e, w);
    lemma_scaled_superadditive(l, e * f, w);
    assert(e * 1 == e);
    assert(f * e == e * f) by (nonlinear_arith);
    assert(l * (e * e) == l * e * e && l * (e * f) == l * f * e && e * l * c == c * l * e)
        by (nonlinear_arith);
    assert(l * layer_bytes(h) == 2 * (l * scaled(e, full)) + 4 * (l * scaled(e * e, w)) + 3 * (l
        * scaled(e * f, w))) by (nonlinear_arith)
        requires
            layer_bytes(h) == 2 * scaled(e, full) + 4 * scaled(e * e, w) + 3 * scaled(e * f, w),
    ;
    assert(l >= 0);
    assert(0 <= (5 + 10 * l) * 256);
}

impl LlamaModel {
    /// Every tensor handle lies inside the arena, and the shard count is the
    /// one the embedding dimension selects.
    pub open spec fn wf(&self) -> bool {
        &&& self.arena.wf()
        &&& entries_in(self.tensors@, self.arena.data@.len() as int)
        &&& n_parts_spec(self.hparams.n_embd as int) == Some(self.n_parts as int)
        &&& valid_hparams(self.hparams)
    }

    /// Sizes the arena for `h`, then places every weight tensor under its
    /// canonical name and the two key/value cache buffers in it. The arena
    /// starts zeroed.
    pub fn new(h: &LlamaHyperParams) -> (r: Result<LlamaModel, LoadError>)
        ensures
            !valid_hparams(*h) ==> r == Err::<LlamaModel, LoadError>(check_error(*h)),
            valid_hparams(*h) ==> (r is Ok <==> arena_size_spec(*h) <= usize::MAX),
            valid_hparams(*h) && r is Err ==> r == Err::<LlamaModel, LoadError>(
                LoadError::Config(ConfigError::ArenaSize),
            ),
            r is Ok ==> {
                let m = r->Ok_0;
                &&& m.wf()
                &&& m.hparams == *h
                &&& m.arena.capacity() == arena_size_spec(*h)
                &&& m.arena.used == model_bytes(*h)
                &&& forall|i: int| 0 <= i < m.arena.capacity() ==> m.arena.data@[i] == 0
                &&& registry_matches(*h, m.tensors@, 0, m.memory_k.offset as int)
                &&& m.memory_k.qtype == QuantType::F32 && m.memory_k.ne0 == n_mem_elems(*h)
                    && m.memory_k.ne1 == 1 && m.memory_k.wf()
                &&& m.memory_v.qtype == QuantType::F32 && m.memory_v.ne0 == n_mem_elems(*h)
                    && m.memory_v.ne1 == 1 && m.memory_v.wf()
                &&& m.memory_k.end() <= m.memory_v.offset
                &&& m.memory_v.end() <= m.arena.used
            },
    {
        match check_hparams(h) {
            Ok(()) => {},
            Err(e) => {
                return Err(e);
            },
        }
        let size = arena_size(h);
        if size > usize::MAX as u128 {
            return Err(LoadError::Config(ConfigError::ArenaSize));
        }
        let mut arena = Arena::new(size as usize);
        let ghost zeroed = arena.data@;
        proof {
            lemma_arena_size_bounds_mem(*h);
            lemma_entries_bytes_mono(*h, 0, n_entries(*h) as nat);
            lemma_model_fits_arena(*h);
        }
        let tensors = match build_registry(&mut arena, h) {
            Ok(t) => t,
            Err(e) => {
                return Err(e);
            },
        };
        assert(n_mem_elems(*h) <= usize::MAX);
        let n_mem: u64 = (h.n_embd as u64) * (h.n_layer as u64) * (h.n_ctx as u64);
        let memory_k = arena.new_tensor(QuantType::F32, n_mem, 1)?;
        let memory_v = match arena.new_tensor(QuantType::F32, n_mem, 1) {
            Ok(t) => t,
            Err(e) => {
                return Err(e);
            },
        };
        let n_parts = llama_n_parts(h.n_embd).unwrap() as u64;
        let m = LlamaModel { hparams: *h, n_parts, arena, tensors, memory_k, memory_v };
        proof {
            assert forall|k: int| 0 <= k < m.tensors@.len() implies #[trigger] m.tensors@[
                k
            ].tensor.wf() && m.tensors@[k].tensor.end() <= m.arena.data@.len() by {}
        }
        Ok(m)
    }

    /// Parses a primary checkpoint file and builds the model it describes,
    /// with `n_ctx` as the context length. Returns the model, the
    /// vocabulary, and the header length at which every shard's tensor
    /// records begin. No tensor data is read here: see `load_part`.
    pub fn load(primary: &[u8], n_ctx: i32) -> (r: Result<(LlamaModel, GptVocab, usize), LoadError>)
        ensures
            match header_spec(primary@, n_ctx) {
                Err(e) => r == Err::<(LlamaModel, GptVocab, usize), LoadError>(e),
                Ok((h, words, end)) => {
                    &&& r is Ok <==> arena_size_spec(h) <= usize::MAX
                    &&& r is Err ==> r == Err::<(LlamaModel, GptVocab, usize), LoadError>(
                        LoadError::Config(ConfigError::ArenaSize),
                    )
                    &&& r is Ok ==> {
                        let (m, vocab, header_len) = r->Ok_0;
                        &&& m.wf()
                        &&& m.hparams == h
                        &&& vocab.words() == words
                        &&& header_len == end
                        &&& forall|i: int| 0 <= i < m.arena.capacity() ==> m.arena.data@[i] == 0
                        &&& m.arena.capacity() == arena_size_spec(h)
                        &&& m.arena.used == model_bytes(h)
                        &&& registry_matches(h, m.tensors@, 0, m.memory_k.offset as int)
                        &&& m.memory_k.qtype == QuantType::F32 && m.memory_k.ne0 == n_mem_elems(h)
                            && m.memory_k.ne1 == 1 && m.memory_k.wf()
                        &&& m.memory_v.qtype == QuantType::F32 && m.memory_v.ne0 == n_mem_elems(h)
                            && m.memory_v.ne1 == 1 && m.memory_v.wf()
                        &&& m.memory_k.end() <= m.memory_v.offset
                        &&& m.memory_v.end() <= m.arena.used
                    }
                },
            },
    {
        let header = parse_header(primary, n_ctx)?;
        proof {
            lemma_model_fits_arena(header.hparams);
        }
        let model = LlamaModel::new(&header.hparams)?;
        Ok((model, header.vocab, header.header_len))
    }

    /// Loads shard `part`: every tensor record of `b` from `header_len` on
    /// is validated against the registry and its bytes copied into its
    /// tensor. Shards are loaded in order, each once.
    pub fn load_part(&mut self, b: &[u8], header_len: usize, part: u64) -> (r: Result<
        PartStats,
        LoadError,
    >)
        requires
            old(self).wf(),
            part < old(self).n_parts,
        ensures
            final(self).wf(),
            final(self).hparams == old(self).hparams,
            final(self).n_parts == old(self).n_parts,
            final(self).tensors@ == old(self).tensors@,
            final(self).memory_k == old(self).memory_k,
            final(self).memory_v == old(self).memory_v,
            final(self).arena.used == old(self).arena.used,
            ({
                let (data, count, outcome) = part_spec(
                    old(self).tensors@,
                    old(self).arena.data@,
                    b@,
                    header_len as int,
                    part as int,
                    old(self).n_parts as int,
                );
                &&& final(self).arena.data@ == data
                &&& r is Ok <==> outcome is Ok
                &&& outcome is Err ==> r == Err::<PartStats, LoadError>(outcome->Err_0)
                &&& r is Ok ==> r->Ok_0.n_tensors == count && r->Ok_0.total_size == if header_len
                    < b@.len() {
                    b@.len() - header_len
                } else {
                    0
                }
            }),
    {
        load_records(&mut self.arena, &self.tensors, b, header_len, part, self.n_parts)
    }

    /// Index of the tensor named `name` in the registry.
    pub fn find_tensor(&self, name: &[u8]) -> (r: Option<usize>)
        ensures
            match lookup(self.tensors@, name@) {
                Some(k) => r == Some(k as usize),
                None => r is None,
            },
    {
        assert(name@.subrange(0, name@.len() as int) =~= name@);
        crate::loader::find_entry(&self.tensors, name, 0, name.len())
    }

    /// A copy of the bytes of registry entry `k`.
    pub fn tensor_data(&self, k: usize) -> (r: Vec<u8>)
        requires
            self.wf(),
            k < self.tensors@.len(),
        ensures
            r@ == self.arena.data@.subrange(
                self.tensors@[k as int].tensor.offset as int,
                self.tensors@[k as int].tensor.end(),
            ),
    {
        let t = self.tensors[k].tensor;
        assert(self.tensors@[k as int].tensor.wf());
        let dlen = self.arena.data.len();
        let mut out: Vec<u8> = Vec::new();
        let mut i: usize = 0;
        while i < t.nbytes
            invariant
                i <= t.nbytes,
                dlen == self.arena.data@.len(),
                t.end() <= self.arena.data@.len(),
                out@ == self.arena.data@.subrange(t.offset as int, t.offset + i),
            decreases t.nbytes - i,
        {
            out.push(self.arena.data[t.offset + i]);
            assert(out@ =~= self.arena.data@.subrange(t.offset as int, t.offset + i + 1));
            i = i + 1;
        }
        out
    }
}

} // verus!

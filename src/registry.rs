use vstd::prelude::*;

use vstd::string::StringSliceAdditionalSpecFns;

use crate::arena::{dim_bound, Arena, TensorHandle};
use crate::error::{ConfigError, LoadError};
use crate::hparams::{
    n_ff, n_ff_spec, quant_type_from_flag, scaled, valid_hparams, wtype_of, LlamaHyperParams,
    QuantType,
};

verus! {

/// The axis along which a weight is divided between shards: `Columns` divides
/// the elements of every row (each shard holds a slice of each row), `Rows`
/// divides the rows (each shard holds a contiguous run of rows).
#[derive(Debug, Clone, Copy, PartialEq, Eq, Structural)]
pub enum SplitAxis {
    Columns,
    Rows,
}

/// A named tensor of the model and the axis its shards divide.
pub struct RegistryEntry {
    pub name: Vec<u8>,
    pub tensor: TensorHandle,
    pub split: SplitAxis,
}

/// Number of registry entries that each layer adds.
pub const PER_LAYER: u64 = 9;

/// Number of registry entries outside the layers.
pub const GLOBALS: u64 = 3;

/// Decimal digits of `n`, most significant first.
pub open spec fn decimal(n: nat) -> Seq<u8>
    decreases n,
{
    if n < 10 {
        seq![(48 + n) as u8]
    } else {
        decimal(n / 10).push((48 + n % 10) as u8)
    }
}

/// Appends the decimal digits of `n` to `out`.
pub fn push_decimal(out: &mut Vec<u8>, n: u64)
    ensures
        final(out)@ == old(out)@ + decimal(n as nat),
    decreases n,
{
    if n >= 10 {
        push_decimal(out, n / 10);
    }
    out.push((48 + n % 10) as u8);
    proof {
        if n >= 10 {
            assert(old(out)@ + decimal((n / 10) as nat) + seq![(48 + n % 10) as u8] =~= old(out)@
                + decimal(n as nat));
        } else {
            assert(old(out)@ + seq![(48 + n % 10) as u8] =~= old(out)@ + decimal(n as nat));
        }
    }
}

/// Appends the bytes of `s` to `out`.
pub fn push_bytes(out: &mut Vec<u8>, s: &[u8])
    ensures
        final(out)@ == old(out)@ + s@,
{
    let n = s.len();
    let mut i: usize = 0;
    while i < n
        invariant
            i <= n,
            n == s@.len(),
            out@ == old(out)@ + s@.subrange(0, i as int),
        decreases n - i,
    {
        out.push(s[i]);
        assert(old(out)@ + s@.subrange(0, i + 1) =~= old(out)@ + s@.subrange(0, i as int)
            + seq![s@[i as int]]);
        i = i + 1;
    }
    assert(s@.subrange(0, n as int) =~= s@);
}

/// Name of the `k`-th tensor outside the layers.
pub open spec fn global_name(k: int) -> Seq<u8> {
    if k == 0 {
        "tok_embeddings.weight".spec_bytes()
    } else if k == 1 {
        "norm.weight".spec_bytes()
    } else {
        "output.weight".spec_bytes()
    }
}

/// Name of the `j`-th tensor of a layer, after the layer's prefix.
pub open spec fn layer_suffix(j: int) -> Seq<u8> {
    if j == 0 {
        "attention_norm.weight".spec_bytes()
    } else if j == 1 {
        "attention.wq.weight".spec_bytes()
    } else if j == 2 {
        "attention.wk.weight".spec_bytes()
    } else if j == 3 {
        "attention.wv.weight".spec_bytes()
    } else if j == 4 {
        "attention.wo.weight".spec_bytes()
    } else if j == 5 {
        "ffn_norm.weight".spec_bytes()
    } else if j == 6 {
        "feed_forward.w1.weight".spec_bytes()
    } else if j == 7 {
        "feed_forward.w2.weight".spec_bytes()
    } else {
        "feed_forward.w3.weight".spec_bytes()
    }
}

/// The canonical name of registry entry `k`: three global tensors, then
/// nine per layer, named `layers.{i}.{suffix}`.
pub open spec fn entry_name(k: int) -> Seq<u8> {
    if k < GLOBALS {
        global_name(k)
    } else {
        "layers.".spec_bytes() + decimal(((k - GLOBALS) / PER_LAYER as int) as nat)
            + ".".spec_bytes() + layer_suffix((k - GLOBALS) % PER_LAYER as int)
    }
}

/// The axis that shards of entry `k` divide: the embedding table and each
/// layer's `attention.wo` and `feed_forward.w2` divide their rows; the other
/// weights divide the elements of every row. (One-dimensional tensors are
/// never divided.)
pub open spec fn entry_split(k: int) -> SplitAxis {
    if k < GLOBALS {
        if k == 2 {
            SplitAxis::Columns
        } else {
            SplitAxis::Rows
        }
    } else {
        let j = (k - GLOBALS) % PER_LAYER as int;
        if j == 4 || j == 7 {
            SplitAxis::Rows
        } else {
            SplitAxis::Columns
        }
    }
}

/// Element type and shape `(ne0, ne1)` of entry `k` of a model.
pub open spec fn entry_layout(h: LlamaHyperParams, k: int) -> (QuantType, int, int) {
    let e = h.n_embd as int;
    let w = wtype_of(h);
    if k < GLOBALS {
        if k == 1 {
            (QuantType::F32, e, 1)
        } else {
            (w, e, h.n_vocab as int)
        }
    } else {
        let j = (k - GLOBALS) % PER_LAYER as int;
        let f = n_ff_spec(h);
        if j == 0 || j == 5 {
            (QuantType::F32, e, 1)
        } else if j <= 4 {
            (w, e, e)
        } else if j == 7 {
            (w, f, e)
        } else {
            (w, e, f)
        }
    }
}

/// Bytes taken by entry `k`.
pub open spec fn entry_bytes(h: LlamaHyperParams, k: int) -> int {
    let (q, ne0, ne1) = entry_layout(h, k);
    scaled(ne0 * ne1, q)
}

/// Bytes taken by the first `n` entries together.
pub open spec fn entries_bytes(h: LlamaHyperParams, n: nat) -> int
    decreases n,
{
    if n == 0 {
        0
    } else {
        entries_bytes(h, (n - 1) as nat) + entry_bytes(h, n - 1)
    }
}

/// Number of registry entries of a model.
pub open spec fn n_entries(h: LlamaHyperParams) -> int {
    GLOBALS + PER_LAYER * h.n_layer
}

proof fn lemma_entry_bytes_nonneg(h: LlamaHyperParams, k: int)
    requires
        valid_hparams(h),
    ensures
        entry_bytes(h, k) >= 0,
{
    let (q, ne0, ne1) = entry_layout(h, k);
    assert(n_ff_spec(h) >= 0) by (nonlinear_arith)
        requires
            n_ff_spec(h) == (((8 * h.n_embd) / 3 + h.n_mult - 1) / (h.n_mult as int)) * h.n_mult,
            h.n_mult > 0,
            h.n_embd > 0,
    ;
    assert(ne0 * ne1 * crate::hparams::type_size_spec(q) >= 0) by (nonlinear_arith)
        requires
            ne0 >= 0,
            ne1 >= 0,
            crate::hparams::type_size_spec(q) > 0,
    ;
}

pub proof fn lemma_entries_bytes_mono(h: LlamaHyperParams, a: nat, b: nat)
    requires
        valid_hparams(h),
        a <= b,
    ensures
        entries_bytes(h, a) <= entries_bytes(h, b),
    decreases b,
{
    if a < b {
        lemma_entries_bytes_mono(h, a, (b - 1) as nat);
        lemma_entry_bytes_nonneg(h, b - 1);
    }
}

/// The registry of a model matches its hyperparameters: each entry has its
/// canonical name, layout and split axis, and the tensors lie in order,
/// without overlap, between `from` and `to` in the arena.
pub open spec fn registry_matches(
    h: LlamaHyperParams,
    entries: Seq<RegistryEntry>,
    from: int,
    to: int,
) -> bool {
    &&& entries.len() == n_entries(h)
    &&& forall|k: int|
        0 <= k < entries.len() ==> {
            let t = #[trigger] entries[k].tensor;
            &&& entries[k].name@ == entry_name(k)
            &&& entries[k].split == entry_split(k)
            &&& (t.qtype, t.ne0 as int, t.ne1 as int) == entry_layout(h, k)
            &&& t.wf()
            &&& from <= t.offset
            &&& t.end() <= to
        }
    &&& forall|j: int, k: int|
        0 <= j < k < entries.len() ==> #[trigger] entries[j].tensor.end()
            <= #[trigger] entries[k].tensor.offset
}

fn global_name_bytes(k: usize) -> (r: &'static [u8])
    requires
        k < GLOBALS,
    ensures
        r@ == global_name(k as int),
{
    if k == 0 {
        "tok_embeddings.weight".as_bytes()
    } else if k == 1 {
        "norm.weight".as_bytes()
    } else {
        "output.weight".as_bytes()
    }
}

fn layer_suffix_bytes(j: usize) -> (r: &'static [u8])
    ensures
        r@ == layer_suffix(j as int),
{
    if j == 0 {
        "attention_norm.weight".as_bytes()
    } else if j == 1 {
        "attention.wq.weight".as_bytes()
    } else if j == 2 {
        "attention.wk.weight".as_bytes()
    } else if j == 3 {
        "attention.wv.weight".as_bytes()
    } else if j == 4 {
        "attention.wo.weight".as_bytes()
    } else if j == 5 {
        "ffn_norm.weight".as_bytes()
    } else if j == 6 {
        "feed_forward.w1.weight".as_bytes()
    } else if j == 7 {
        "feed_forward.w2.weight".as_bytes()
    } else {
        "feed_forward.w3.weight".as_bytes()
    }
}

/// Builds the canonical name of registry entry `k`.
pub fn entry_name_bytes(k: u64) -> (r: Vec<u8>)
    ensures
        r@ == entry_name(k as int),
{
    let mut out: Vec<u8> = Vec::new();
    if k < GLOBALS {
        push_bytes(&mut out, global_name_bytes(k as usize));
    } else {
        push_bytes(&mut out, "layers.".as_bytes());
        push_decimal(&mut out, (k - GLOBALS) / PER_LAYER);
        push_bytes(&mut out, ".".as_bytes());
        push_bytes(&mut out, layer_suffix_bytes(((k - GLOBALS) % PER_LAYER) as usize));
        assert(out@ =~= entry_name(k as int));
    }
    proof {
        if k < GLOBALS {
            assert(out@ =~= entry_name(k as int));
        }
    }
    out
}

/// The axis that shards of entry `k` divide.
pub fn entry_split_exec(k: u64) -> (r: SplitAxis)
    ensures
        r == entry_split(k as int),
{
    if k < GLOBALS {
        if k == 2 {
            SplitAxis::Columns
        } else {
            SplitAxis::Rows
        }
    } else {
        let j = (k - GLOBALS) % PER_LAYER;
        if j == 4 || j == 7 {
            SplitAxis::Rows
        } else {
            SplitAxis::Columns
        }
    }
}

fn entry_layout_exec(h: &LlamaHyperParams, w: QuantType, f: i64, k: u64) -> (r: (
    QuantType,
    u64,
    u64,
))
    requires
        valid_hparams(*h),
        w == wtype_of(*h),
        f == n_ff_spec(*h),
        (8 * h.n_embd) / 3 <= f < (8 * h.n_embd) / 3 + h.n_mult,
    ensures
        (r.0, r.1 as int, r.2 as int) == entry_layout(*h, k as int),
        r.2 < dim_bound(),
{
    let e = h.n_embd as u64;
    if k < GLOBALS {
        if k == 1 {
            (QuantType::F32, e, 1)
        } else {
            (w, e, h.n_vocab as u64)
        }
    } else {
        let j = (k - GLOBALS) % PER_LAYER;
        if j == 0 || j == 5 {
            (QuantType::F32, e, 1)
        } else if j <= 4 {
            (w, e, e)
        } else if j == 7 {
            (w, f as u64, e)
        } else {
            (w, e, f as u64)
        }
    }
}

/// Places every weight tensor of a model in the arena, in registry order,
/// under its canonical name; fails where the arena is too small for them.
pub fn build_registry(arena: &mut Arena, h: &LlamaHyperParams) -> (r: Result<
    Vec<RegistryEntry>,
    LoadError,
>)
    requires
        old(arena).wf(),
        valid_hparams(*h),
    ensures
        final(arena).wf(),
        final(arena).data == old(arena).data,
        r is Ok <==> old(arena).used + entries_bytes(*h, n_entries(*h) as nat) <= old(
            arena,
        ).capacity(),
        r is Err ==> r->Err_0 == LoadError::Config(ConfigError::ArenaSize),
        r is Ok ==> registry_matches(*h, r->Ok_0@, old(arena).used as int, final(arena).used as int)
            && final(arena).used == old(arena).used + entries_bytes(*h, n_entries(*h) as nat),
{
    let w = quant_type_from_flag(h.f16_).unwrap();
    let f = n_ff(h);
    let n: u64 = GLOBALS + PER_LAYER * (h.n_layer as u64);
    let mut entries: Vec<RegistryEntry> = Vec::new();
    let mut k: u64 = 0;
    while k < n
        invariant
            k <= n,
            n == n_entries(*h),
            valid_hparams(*h),
            w == wtype_of(*h),
            f == n_ff_spec(*h),
            (8 * h.n_embd) / 3 <= f < (8 * h.n_embd) / 3 + h.n_mult,
            arena.wf(),
            arena.data == old(arena).data,
            arena.used == old(arena).used + entries_bytes(*h, k as nat),
            entries@.len() == k,
            forall|m: int|
                0 <= m < k ==> {
                    let t = #[trigger] entries@[m].tensor;
                    &&& entries@[m].name@ == entry_name(m)
                    &&& entries@[m].split == entry_split(m)
                    &&& (t.qtype, t.ne0 as int, t.ne1 as int) == entry_layout(*h, m)
                    &&& t.wf()
                    &&& old(arena).used <= t.offset
                    &&& t.end() <= arena.used
                },
            forall|i: int, m: int|
                0 <= i < m < k ==> #[trigger] entries@[i].tensor.end()
                    <= #[trigger] entries@[m].tensor.offset,
        decreases n - k,
    {
        let (q, ne0, ne1) = entry_layout_exec(h, w, f, k);
        let t = match arena.new_tensor(q, ne0, ne1) {
            Ok(t) => t,
            Err(e) => {
                proof {
                    lemma_entries_bytes_mono(*h, (k + 1) as nat, n as nat);
                }
                return Err(e);
            },
        };
        let name = entry_name_bytes(k);
        let split = entry_split_exec(k);
        let ghost prev = entries@;
        proof {
            lemma_entries_bytes_mono(*h, 0, k as nat);
        }
        entries.push(RegistryEntry { name, tensor: t, split });
        proof {
            assert forall|m: int| 0 <= m < k + 1 implies {
                let t = #[trigger] entries@[m].tensor;
                &&& entries@[m].name@ == entry_name(m)
                &&& entries@[m].split == entry_split(m)
                &&& (t.qtype, t.ne0 as int, t.ne1 as int) == entry_layout(*h, m)
                &&& t.wf()
                &&& old(arena).used <= t.offset
                &&& t.end() <= arena.used
            } by {
                if m < k {
                    assert(entries@[m] == prev[m]);
                }
            }
        }
        k = k + 1;
    }
    Ok(entries)
}

} // verus!

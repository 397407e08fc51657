use vstd::prelude::*;

use crate::arena::{write_at, Arena, TensorHandle};
use crate::error::{FormatError, LoadError};
use crate::format::{le_i32, read_i32};
use crate::hparams::{block_size_spec, quant_of_flag, quant_type_from_flag, type_size_spec, QuantType};
use crate::registry::{RegistryEntry, SplitAxis};

verus! {

/// The fixed fields of a tensor record, and where its name and data begin.
#[derive(Debug, Clone, Copy, PartialEq, Eq, Structural)]
pub struct RecordHeader {
    pub n_dims: i32,
    pub name_len: i32,
    pub ftype: i32,
    pub ne0: i32,
    pub ne1: i32,
    pub name_start: usize,
    pub data_start: usize,
}

/// The header of the record at `pos`: dimensionality, name length and
/// element type, then one shape value per dimension (a missing second one
/// is 1), then the name.
pub open spec fn record_header_spec(b: Seq<u8>, pos: int) -> Result<RecordHeader, LoadError> {
    if pos + 12 > b.len() {
        Err(LoadError::Format(FormatError::Truncated))
    } else {
        let n_dims = le_i32(b, pos);
        let name_len = le_i32(b, pos + 4);
        if n_dims < 1 || n_dims > 2 || name_len < 0 {
            Err(LoadError::Format(FormatError::BadRecordHeader))
        } else if pos + 12 + 4 * n_dims + name_len > b.len() {
            Err(LoadError::Format(FormatError::Truncated))
        } else {
            let name_start = pos + 12 + 4 * n_dims;
            Ok(
                RecordHeader {
                    n_dims: n_dims as i32,
                    name_len: name_len as i32,
                    ftype: le_i32(b, pos + 8) as i32,
                    ne0: le_i32(b, pos + 12) as i32,
                    ne1: if n_dims == 2 {
                        le_i32(b, pos + 16) as i32
                    } else {
                        1
                    },
                    name_start: name_start as usize,
                    data_start: (name_start + name_len) as usize,
                },
            )
        }
    }
}

/// Reads the header of the record at `pos`.
pub fn read_record_header(b: &[u8], pos: usize) -> (r: Result<RecordHeader, LoadError>)
    ensures
        r == record_header_spec(b@, pos as int),
{
    let blen = b.len();
    if pos > blen || blen - pos < 12 {
        return Err(LoadError::Format(FormatError::Truncated));
    }
    let n_dims = read_i32(b, pos).unwrap();
    let name_len = read_i32(b, pos + 4).unwrap();
    let ftype = read_i32(b, pos + 8).unwrap();
    if n_dims < 1 || n_dims > 2 || name_len < 0 {
        return Err(LoadError::Format(FormatError::BadRecordHeader));
    }
    let rem = blen - pos - 12;
    let shape_len = 4 * (n_dims as usize);
    if rem < shape_len || rem - shape_len < name_len as usize {
        return Err(LoadError::Format(FormatError::Truncated));
    }
    let name_start = pos + 12 + shape_len;
    let ne0 = read_i32(b, pos + 12).unwrap();
    let ne1 = if n_dims == 2 {
        read_i32(b, pos + 16).unwrap()
    } else {
        1
    };
    Ok(
        RecordHeader {
            n_dims,
            name_len,
            ftype,
            ne0,
            ne1,
            name_start,
            data_start: name_start + name_len as usize,
        },
    )
}

/// Index of the first registry entry named `name`.
pub open spec fn lookup(entries: Seq<RegistryEntry>, name: Seq<u8>) -> Option<int>
    decreases entries.len(),
{
    if entries.len() == 0 {
        None
    } else {
        match lookup(entries.drop_last(), name) {
            Some(k) => Some(k),
            None => if entries.last().name@ == name {
                Some(entries.len() - 1)
            } else {
                None
            },
        }
    }
}

/// Whether `b[from..from + len]` equals `name`.
fn bytes_equal(b: &[u8], from: usize, len: usize, name: &Vec<u8>) -> (r: bool)
    requires
        from + len <= b@.len(),
    ensures
        r == (b@.subrange(from as int, from + len) == name@),
{
    if name.len() != len {
        proof {
            assert(b@.subrange(from as int, from + len).len() != name@.len());
        }
        return false;
    }
    let bl = b.len();
    let mut i: usize = 0;
    while i < len
        invariant
            i <= len,
            bl == b@.len(),
            len == name@.len(),
            from + len <= b@.len(),
            b@.subrange(from as int, from + i) == name@.subrange(0, i as int),
        decreases len - i,
    {
        if b[from + i] != name[i] {
            assert(b@.subrange(from as int, from + len)[i as int] != name@[i as int]);
            return false;
        }
        assert(b@.subrange(from as int, from + i + 1) =~= name@.subrange(0, i + 1));
        i = i + 1;
    }
    assert(name@.subrange(0, len as int) =~= name@);
    true
}

/// Finds the registry entry named `b[from..from + len]`.
pub fn find_entry(entries: &Vec<RegistryEntry>, b: &[u8], from: usize, len: usize) -> (r: Option<
    usize,
>)
    requires
        from + len <= b@.len(),
    ensures
        match lookup(entries@, b@.subrange(from as int, from + len)) {
            Some(k) => r == Some(k as usize),
            None => r is None,
        },
        r is Some ==> r.unwrap() < entries@.len() && lookup(
            entries@,
            b@.subrange(from as int, from + len),
        ) == Some(r.unwrap() as int),
{
    let ghost name = b@.subrange(from as int, from + len);
    let n = entries.len();
    let mut i: usize = 0;
    while i < n
        invariant
            i <= n,
            n == entries@.len(),
            from + len <= b@.len(),
            name == b@.subrange(from as int, from + len),
            lookup(entries@.subrange(0, i as int), name) is None,
        decreases n - i,
    {
        assert(entries@.subrange(0, i + 1).drop_last() =~= entries@.subrange(0, i as int));
        if bytes_equal(b, from, len, &entries[i].name) {
            proof {
                lemma_lookup_prefix(entries@, name, i as int);
            }
            proof {
                lemma_lookup_range(entries@, name);
            }
            return Some(i);
        }
        i = i + 1;
    }
    assert(entries@.subrange(0, n as int) =~= entries@);
    None
}

proof fn lemma_lookup_range(entries: Seq<RegistryEntry>, name: Seq<u8>)
    ensures
        lookup(entries, name) is Some ==> {
            let k = lookup(entries, name).unwrap();
            0 <= k < entries.len() && entries[k].name@ == name
        },
    decreases entries.len(),
{
    if entries.len() > 0 {
        lemma_lookup_range(entries.drop_last(), name);
    }
}

proof fn lemma_lookup_prefix(entries: Seq<RegistryEntry>, name: Seq<u8>, i: int)
    requires
        0 <= i < entries.len(),
        lookup(entries.subrange(0, i + 1), name) == Some(i),
    ensures
        lookup(entries, name) == Some(i),
    decreases entries.len(),
{
    if entries.len() > i + 1 {
        assert(entries.drop_last().subrange(0, i + 1) =~= entries.subrange(0, i + 1));
        lemma_lookup_prefix(entries.drop_last(), name, i);
    } else {
        assert(entries.subrange(0, i + 1) =~= entries);
    }
}

/// Number of elements a record declares.
pub open spec fn declared_elems(r: RecordHeader) -> int {
    r.ne0 * r.ne1
}

/// A one-dimensional record, or a model of one shard, carries the whole tensor.
pub open spec fn carries_whole(r: RecordHeader, np: int) -> bool {
    r.n_dims == 1 || np == 1
}

/// The record's shape is what shard of `np` of tensor `t` must hold: all of
/// a one-dimensional tensor; of another, `1/np` of its elements, divided
/// along `split`.
pub open spec fn shape_ok(t: TensorHandle, r: RecordHeader, np: int, split: SplitAxis) -> bool {
    let full = t.ne0 * t.ne1;
    if r.n_dims == 1 {
        full == declared_elems(r) && t.ne0 == r.ne0 && t.ne1 == r.ne1
    } else {
        &&& full / np == declared_elems(r)
        &&& match split {
            SplitAxis::Columns => t.ne0 as int / np == r.ne0 && t.ne1 == r.ne1,
            SplitAxis::Rows => t.ne0 == r.ne0 && t.ne1 as int / np == r.ne1,
        }
    }
}

/// The record's byte size, from its element count and its declared element
/// type `q`, is the tensor's footprint for one shard.
pub open spec fn size_ok(t: TensorHandle, r: RecordHeader, q: QuantType, np: int) -> bool {
    let got = declared_elems(r) * type_size_spec(q) / block_size_spec(t.qtype);
    if carries_whole(r, np) {
        got == t.nbytes
    } else {
        got == t.nbytes as int / np
    }
}

/// Bytes of one row of `t`.
pub open spec fn row_bytes(t: TensorHandle) -> int {
    (t.ne0 as int / block_size_spec(t.qtype)) * type_size_spec(t.qtype)
}

/// Where the bytes of a record of shard `part` go, as `(start, stride, len,
/// runs, size)`: `runs` runs of `len` bytes, the first at `start` in the
/// tensor and each `stride` after the last, taken one after another from the
/// record's `size` data bytes. A whole tensor is copied from shard 0 and
/// skipped in the others; a tensor divided by `Columns` gets a slice of
/// each row; one divided by `Rows` gets one contiguous run of rows.
pub open spec fn copy_plan(
    t: TensorHandle,
    r: RecordHeader,
    np: int,
    part: int,
    split: SplitAxis,
) -> (int, int, int, int, int) {
    if carries_whole(r, np) {
        (0, t.nbytes as int, t.nbytes as int, if part == 0 {
            1
        } else {
            0
        }, t.nbytes as int)
    } else {
        let rs = row_bytes(t);
        match split {
            SplitAxis::Columns => (
                ((part * r.ne0) / block_size_spec(t.qtype)) * type_size_spec(t.qtype),
                rs,
                rs / np,
                r.ne1 as int,
                r.ne1 * (rs / np),
            ),
            SplitAxis::Rows => (part * r.ne1 * rs, rs, r.ne1 * rs, 1, r.ne1 * rs),
        }
    }
}

/// Every run of a plan lies inside the tensor.
pub open spec fn plan_fits(t: TensorHandle, plan: (int, int, int, int, int)) -> bool {
    let (start, stride, len, rows, size) = plan;
    rows == 0 || start + (rows - 1) * stride + len <= t.nbytes
}

/// Validates a record against its tensor and works out where its bytes go.
fn plan_record(t: &TensorHandle, split: SplitAxis, r: &RecordHeader, part: u64, np: u64) -> (res:
    Result<(u128, u128, u128, u128, u128), LoadError>)
    requires
        t.wf(),
        1 <= np <= 8,
        part < np,
    ensures
        !shape_ok(*t, *r, np as int, split) ==> res == Err::<
            (u128, u128, u128, u128, u128),
            LoadError,
        >(LoadError::ShapeMismatch),
        shape_ok(*t, *r, np as int, split) && quant_of_flag(r.ftype as int) is None ==> res == Err::<
            (u128, u128, u128, u128, u128),
            LoadError,
        >(LoadError::Format(FormatError::BadRecordType)),
        shape_ok(*t, *r, np as int, split) && quant_of_flag(r.ftype as int) is Some ==> {
            let q = quant_of_flag(r.ftype as int).unwrap();
            let plan = copy_plan(*t, *r, np as int, part as int, split);
            if size_ok(*t, *r, q, np as int) && plan_fits(*t, plan) {
                &&& res is Ok
                &&& res->Ok_0.0 == plan.0
                &&& res->Ok_0.1 == plan.1
                &&& res->Ok_0.2 == plan.2
                &&& res->Ok_0.3 == plan.3
                &&& res->Ok_0.4 == plan.4
            } else {
                res == Err::<(u128, u128, u128, u128, u128), LoadError>(
                    LoadError::ShapeMismatch,
                )
            }
        },
{
    let b32: i128 = 0x1_0000_0000;
    let b64: i128 = 0x1_0000_0000_0000_0000;
    let tne0 = t.ne0 as i128;
    let tne1 = t.ne1 as i128;
    let npi = np as i128;
    assert(tne0 * tne1 < b64 * b32) by (nonlinear_arith)
        requires
            0 <= tne0 < b64,
            0 <= tne1 < b32,
    ;
    assert(0 <= tne0 * tne1) by (nonlinear_arith)
        requires
            0 <= tne0,
            0 <= tne1,
    ;
    let full: i128 = tne0 * tne1;
    let rne0 = r.ne0 as i128;
    let rne1 = r.ne1 as i128;
    assert(-b32 * b32 <= rne0 * rne1 <= b32 * b32) by (nonlinear_arith)
        requires
            -b32 < rne0 < b32,
            -b32 < rne1 < b32,
    ;
    let declared: i128 = rne0 * rne1;
    let ok_shape = if r.n_dims == 1 {
        full == declared && tne0 == rne0 && tne1 == rne1
    } else {
        full / npi == declared && match split {
            SplitAxis::Columns => tne0 / npi == rne0 && tne1 == rne1,
            SplitAxis::Rows => tne0 == rne0 && tne1 / npi == rne1,
        }
    };
    if !ok_shape {
        return Err(LoadError::ShapeMismatch);
    }
    let q = quant_type_from_flag(r.ftype);
    let q = match q {
        Ok(q) => q,
        Err(_) => return Err(LoadError::Format(FormatError::BadRecordType)),
    };
    assert(rne0 >= 0 && rne1 >= 0);
    assert(0 <= declared * type_size_spec(q) <= 24 * b32 * b32) by (nonlinear_arith)
        requires
            0 <= rne0 < b32,
            0 <= rne1 < b32,
            declared == rne0 * rne1,
            0 < type_size_spec(q) <= 24,
    ;
    let got: i128 = declared * (q.type_size() as i128) / (t.qtype.block_size() as i128);
    let want: i128 = if r.n_dims == 1 || np == 1 {
        t.nbytes as i128
    } else {
        t.nbytes as i128 / npi
    };
    if got != want {
        return Err(LoadError::ShapeMismatch);
    }
    let ts = t.qtype.type_size() as u128;
    let bs = t.qtype.block_size() as u128;
    let (start, stride, len, rows, size): (u128, u128, u128, u128, u128) = if r.n_dims == 1 || np
        == 1 {
        let n = t.nbytes as u128;
        (0, n, n, if part == 0 {
            1
        } else {
            0
        }, n)
    } else {
        let u0 = rne0 as u128;
        let u1 = rne1 as u128;
        assert((t.ne0 as int / bs as int) * ts as int <= b64 * 24) by (nonlinear_arith)
            requires
                0 <= t.ne0 < b64,
                1 <= bs,
                0 < ts <= 24,
        ;
        let rs: u128 = ((t.ne0 as u128) / bs) * ts;
        match split {
            SplitAxis::Columns => {
                assert(part as int * u0 as int <= 8 * b32) by (nonlinear_arith)
                    requires
                        part < 8,
                        u0 < b32,
                ;
                assert(((part as int * u0 as int) / bs as int) * ts as int <= 8 * b32 * 24)
                    by (nonlinear_arith)
                    requires
                        0 <= part as int * u0 as int <= 8 * b32,
                        1 <= bs,
                        0 < ts <= 24,
                ;
                assert(u1 as int * (rs as int / np as int) <= b32 * b64 * 24) by (nonlinear_arith)
                    requires
                        u1 < b32,
                        rs <= b64 * 24,
                        np >= 1,
                ;
                ((((part as u128) * u0) / bs) * ts, rs, rs / (np as u128), u1, u1 * (rs / (
                np as u128)))
            },
            SplitAxis::Rows => {
                assert(part as int * u1 as int * rs as int <= 8 * b32 * b64 * 24) by (nonlinear_arith)
                    requires
                        part < 8,
                        u1 < b32,
                        rs <= b64 * 24,
                ;
                assert(u1 as int * rs as int <= b32 * b64 * 24) by (nonlinear_arith)
                    requires
                        u1 < b32,
                        rs <= b64 * 24,
                ;
                assert(part as int * u1 as int <= 8 * b32) by (nonlinear_arith)
                    requires
                        part < 8,
                        u1 < b32,
                ;
                ((part as u128) * u1 * rs, rs, u1 * rs, 1, u1 * rs)
            },
        }
    };
    assert(rows <= b32);
    assert(rows == 0 || (rows - 1) * stride <= b32 * b64 * 24) by (nonlinear_arith)
        requires
            rows <= b32,
            stride <= b64 * 24,
    ;
    if rows > 0 && start + (rows - 1) * stride + len > t.nbytes as u128 {
        return Err(LoadError::ShapeMismatch);
    }
    Ok((start, stride, len, rows, size))
}

/// `old` with `runs` runs of `len` bytes of `src` written over it, run `i`
/// taken from `src[i * len..]` and written at `at + i * stride`.
pub open spec fn strided_write(
    old: Seq<u8>,
    at: int,
    stride: int,
    len: int,
    runs: nat,
    src: Seq<u8>,
) -> Seq<u8>
    decreases runs,
{
    if runs == 0 {
        old
    } else {
        let i = runs - 1;
        write_at(
            strided_write(old, at, stride, len, i as nat, src),
            at + i * stride,
            src.subrange(i * len, i * len + len),
        )
    }
}

/// The registry is sound for an arena: every tensor is well formed and
/// lies inside the arena's bytes.
pub open spec fn entries_in(entries: Seq<RegistryEntry>, arena_len: int) -> bool {
    forall|k: int|
        0 <= k < entries.len() ==> #[trigger] entries[k].tensor.wf() && entries[k].tensor.end()
            <= arena_len
}

/// What the record at `pos` of shard `part` of `np` does: the arena
/// position of its first run, the stride, run length and run count, where
/// its data starts, and where the next record starts.
pub open spec fn record_spec(
    entries: Seq<RegistryEntry>,
    b: Seq<u8>,
    pos: int,
    part: int,
    np: int,
) -> Result<(int, int, int, int, int, int), LoadError> {
    match record_header_spec(b, pos) {
        Err(e) => Err(e),
        Ok(r) => match lookup(entries, b.subrange(r.name_start as int, r.data_start as int)) {
            None => Err(LoadError::UnknownTensor),
            Some(k) => {
                let t = entries[k].tensor;
                let split = entries[k].split;
                if !shape_ok(t, r, np, split) {
                    Err(LoadError::ShapeMismatch)
                } else {
                    match quant_of_flag(r.ftype as int) {
                        None => Err(LoadError::Format(FormatError::BadRecordType)),
                        Some(q) => {
                            let plan = copy_plan(t, r, np, part, split);
                            let (start, stride, len, runs, size) = plan;
                            if !size_ok(t, r, q, np) || !plan_fits(t, plan) {
                                Err(LoadError::ShapeMismatch)
                            } else if r.data_start + size > b.len() {
                                Err(LoadError::Format(FormatError::Truncated))
                            } else {
                                Ok(
                                    (
                                        t.offset + start,
                                        stride,
                                        len,
                                        runs,
                                        r.data_start as int,
                                        r.data_start + size,
                                    ),
                                )
                            }
                        },
                    }
                }
            },
        },
    }
}

proof fn lemma_plan_sizes(t: TensorHandle, r: RecordHeader, np: int, part: int, split: SplitAxis)
    requires
        1 <= np,
        0 <= part,
        t.wf(),
        shape_ok(t, r, np, split),
    ensures
        ({
            let (start, stride, len, runs, size) = copy_plan(t, r, np, part, split);
            &&& 0 <= start
            &&& 0 <= stride
            &&& 0 <= len
            &&& 0 <= runs
            &&& runs * len <= size
        }),
{
    let rs = row_bytes(t);
    assert(rs >= 0) by (nonlinear_arith)
        requires
            rs == (t.ne0 as int / block_size_spec(t.qtype)) * type_size_spec(t.qtype),
            block_size_spec(t.qtype) > 0,
            type_size_spec(t.qtype) > 0,
    ;
    if !carries_whole(r, np) {
        assert(r.ne0 >= 0 && r.ne1 >= 0);
        assert(rs / np >= 0);
        assert(r.ne1 * (rs / np) >= 0 && r.ne1 * rs >= 0) by (nonlinear_arith)
            requires
                r.ne1 >= 0,
                rs / np >= 0,
                rs >= 0,
        ;
        assert(part * r.ne1 * rs >= 0 && part * r.ne0 >= 0) by (nonlinear_arith)
            requires
                r.ne1 >= 0,
                r.ne0 >= 0,
                part >= 0,
                rs >= 0,
        ;
        assert(((part * r.ne0) / block_size_spec(t.qtype)) * type_size_spec(t.qtype) >= 0)
            by (nonlinear_arith)
            requires
                part * r.ne0 >= 0,
                block_size_spec(t.qtype) > 0,
                type_size_spec(t.qtype) > 0,
        ;
    }
}

/// The arena bytes after a record's step has been applied.
pub open spec fn apply_step(data: Seq<u8>, b: Seq<u8>, step: (int, int, int, int, int, int)) -> Seq<
    u8,
> {
    let (at, stride, len, runs, from, next) = step;
    strided_write(data, at, stride, len, runs as nat, b.subrange(from, next))
}

/// Validates the record at `pos` and copies its bytes into its tensor;
/// returns where the next record starts. Fails before writing anything.
pub fn load_record(
    arena: &mut Arena,
    entries: &Vec<RegistryEntry>,
    b: &[u8],
    pos: usize,
    part: u64,
    np: u64,
) -> (r: Result<usize, LoadError>)
    requires
        old(arena).wf(),
        entries_in(entries@, old(arena).data@.len() as int),
        1 <= np <= 8,
        part < np,
    ensures
        final(arena).used == old(arena).used,
        match record_spec(entries@, b@, pos as int, part as int, np as int) {
            Ok(step) => r == Ok::<usize, LoadError>(step.5 as usize) && final(arena).data@
                == apply_step(old(arena).data@, b@, step),
            Err(e) => r == Err::<usize, LoadError>(e) && final(arena).data@ == old(arena).data@,
        },
        r is Ok ==> pos < r.unwrap() <= b@.len(),
        final(arena).data@.len() == old(arena).data@.len(),
{
    let blen = b.len();
    let alen = arena.data.len();
    let h = read_record_header(b, pos)?;
    assert(h.data_start == h.name_start + h.name_len as usize);
    let k = match find_entry(entries, b, h.name_start, h.name_len as usize) {
        Some(k) => k,
        None => {
            assert(record_spec(entries@, b@, pos as int, part as int, np as int) == Err::<
                (int, int, int, int, int, int),
                LoadError,
            >(LoadError::UnknownTensor));
            return Err(LoadError::UnknownTensor);
        },
    };
    let t = entries[k].tensor;
    let split = entries[k].split;
    let ghost name = b@.subrange(h.name_start as int, h.data_start as int);
    assert(lookup(entries@, name) == Some(k as int));
    assert(record_header_spec(b@, pos as int) == Ok::<RecordHeader, LoadError>(h));
    let planned = plan_record(&t, split, &h, part, np);
    let (start, stride, len, runs, size) = match planned {
        Ok(p) => p,
        Err(e) => {
            assert(record_spec(entries@, b@, pos as int, part as int, np as int) == Err::<
                (int, int, int, int, int, int),
                LoadError,
            >(e));
            return Err(e);
        },
    };
    if size > (blen - h.data_start) as u128 {
        assert(record_spec(entries@, b@, pos as int, part as int, np as int) == Err::<
            (int, int, int, int, int, int),
            LoadError,
        >(LoadError::Format(FormatError::Truncated)));
        return Err(LoadError::Format(FormatError::Truncated));
    }
    let from = h.data_start;
    let next = h.data_start + size as usize;
    let ghost src = b@.subrange(from as int, next as int);
    proof {
        lemma_plan_sizes(t, h, np as int, part as int, entries@[k as int].split);
        assert(h.data_start > pos);
    }
    let ghost old_data = arena.data@;
    proof {
        assert(k < entries@.len());
        assert(entries@[k as int].tensor.wf());
    }
    let mut i: u128 = 0;
    while i < runs
        invariant
            i <= runs,
            alen == old_data.len(),
            blen == b@.len(),
            arena.wf(),
            arena.used == old(arena).used,
            arena.data@.len() == old_data.len(),
            t.end() <= old_data.len(),
            runs == 0 || start + (runs - 1) * stride + len <= t.nbytes,
            runs * len <= size,
            from + size <= b@.len(),
            next == from + size,
            src == b@.subrange(from as int, next as int),
            arena.data@ == strided_write(
                old_data,
                t.offset + start,
                stride as int,
                len as int,
                i as nat,
                src,
            ),
        decreases runs - i,
    {
        assert(i * stride <= (runs - 1) * stride && i * len + len <= runs * len) by (nonlinear_arith)
            requires
                i < runs,
        ;
        assert(0 <= i * stride && 0 <= i * len) by (nonlinear_arith);
        let at: u128 = t.offset as u128 + start + i * stride;
        let src_at: u128 = from as u128 + i * len;
        let ghost prev = arena.data@;
        arena.write(at as usize, b, src_at as usize, len as usize);
        assert(b@.subrange(src_at as int, src_at + len) =~= src.subrange(
            i * len,
            i * len + len,
        ));
        assert(strided_write(
            old_data,
            t.offset + start,
            stride as int,
            len as int,
            (i + 1) as nat,
            src,
        ) == write_at(
            strided_write(old_data, t.offset + start, stride as int, len as int, i as nat, src),
            t.offset + start + i * stride,
            src.subrange(i * len, i * len + len),
        ));
        i = i + 1;
    }
    Ok(next)
}

/// What loading the records of shard `part` of `np` from `pos` to the end
/// of `b` does to the arena bytes `data`: each record in turn is validated
/// and copied, and the first failure ends the load. The result is the bytes
/// after the records that loaded (none of a failing record's bytes are
/// written), the number of records loaded, and the outcome.
pub open spec fn part_spec(
    entries: Seq<RegistryEntry>,
    data: Seq<u8>,
    b: Seq<u8>,
    pos: int,
    part: int,
    np: int,
) -> (Seq<u8>, nat, Result<(), LoadError>)
    decreases b.len() - pos,
{
    if pos >= b.len() {
        (data, 0, Ok(()))
    } else {
        match record_spec(entries, b, pos, part, np) {
            Err(e) => (data, 0, Err(e)),
            Ok(step) => if pos < step.5 <= b.len() {
                let rest = part_spec(entries, apply_step(data, b, step), b, step.5, part, np);
                (rest.0, rest.1 + 1, rest.2)
            } else {
                (data, 0, Ok(()))
            },
        }
    }
}

/// Progress counts of one shard: records loaded and the bytes they span.
#[derive(Debug, Clone, Copy, PartialEq, Eq, Structural)]
pub struct PartStats {
    pub n_tensors: usize,
    pub total_size: usize,
}

/// Loads every record of shard `part` of `np`, from `start` to the end of
/// `b`, into the tensors of `entries`.
pub fn load_records(
    arena: &mut Arena,
    entries: &Vec<RegistryEntry>,
    b: &[u8],
    start: usize,
    part: u64,
    np: u64,
) -> (r: Result<PartStats, LoadError>)
    requires
        old(arena).wf(),
        entries_in(entries@, old(arena).data@.len() as int),
        1 <= np <= 8,
        part < np,
    ensures
        final(arena).wf(),
        final(arena).used == old(arena).used,
        final(arena).data@.len() == old(arena).data@.len(),
        ({
            let (data, count, outcome) = part_spec(
                entries@,
                old(arena).data@,
                b@,
                start as int,
                part as int,
                np as int,
            );
            &&& final(arena).data@ == data
            &&& r is Ok <==> outcome is Ok
            &&& outcome is Err ==> r == Err::<PartStats, LoadError>(outcome->Err_0)
            &&& r is Ok ==> r->Ok_0.n_tensors == count && r->Ok_0.total_size == if start < b@.len() {
                b@.len() - start
            } else {
                0
            }
        }),
{
    let blen = b.len();
    let mut pos: usize = start;
    let mut stats = PartStats { n_tensors: 0, total_size: 0 };
    while pos < blen
        invariant
            blen == b@.len(),
            start <= pos,
            pos <= blen || pos == start,
            arena.wf(),
            arena.used == old(arena).used,
            arena.data@.len() == old(arena).data@.len(),
            entries_in(entries@, old(arena).data@.len() as int),
            1 <= np <= 8,
            part < np,
            stats.n_tensors <= pos - start,
            stats.total_size == pos - start,
            ({
                let whole = part_spec(
                    entries@,
                    old(arena).data@,
                    b@,
                    start as int,
                    part as int,
                    np as int,
                );
                let rest = part_spec(entries@, arena.data@, b@, pos as int, part as int, np as int);
                whole.0 == rest.0 && whole.1 == rest.1 + stats.n_tensors && whole.2 == rest.2
            }),
        decreases blen - pos,
    {
        let next = load_record(arena, entries, b, pos, part, np)?;
        stats.n_tensors = stats.n_tensors + 1;
        stats.total_size = stats.total_size + (next - pos);
        pos = next;
    }
    Ok(stats)
}

/// Extent along the divided axis of each shard record, summed over the
/// first `n` records.
pub open spec fn sum_extents(shards: Seq<RecordHeader>, split: SplitAxis, n: nat) -> int
    decreases n,
{
    if n == 0 {
        0
    } else {
        sum_extents(shards, split, (n - 1) as nat) + match split {
            SplitAxis::Columns => shards[n - 1].ne0 as int,
            SplitAxis::Rows => shards[n - 1].ne1 as int,
        }
    }
}

/// The full extent of `t` along `split`.
pub open spec fn full_extent(t: TensorHandle, split: SplitAxis) -> int {
    match split {
        SplitAxis::Columns => t.ne0 as int,
        SplitAxis::Rows => t.ne1 as int,
    }
}

proof fn lemma_sum_extents_prefix(
    t: TensorHandle,
    split: SplitAxis,
    np: int,
    shards: Seq<RecordHeader>,
    n: nat,
)
    requires
        np >= 1,
        n <= shards.len(),
        forall|k: int|
            0 <= k < shards.len() ==> #[trigger] shards[k].n_dims == 2 && shape_ok(
                t,
                shards[k],
                np,
                split,
            ),
    ensures
        sum_extents(shards, split, n) == n * (full_extent(t, split) / np),
    decreases n,
{
    let e = full_extent(t, split) / np;
    if n == 0 {
        assert(0 * e == 0) by (nonlinear_arith);
    } else {
        lemma_sum_extents_prefix(t, split, np, shards, (n - 1) as nat);
        let r = shards[n - 1];
        assert(r.n_dims == 2 && shape_ok(t, r, np, split));
        match split {
            SplitAxis::Columns => assert(r.ne0 == t.ne0 as int / np),
            SplitAxis::Rows => assert(r.ne1 == t.ne1 as int / np),
        }
        let m = (n - 1) as int;
        assert(sum_extents(shards, split, n) == sum_extents(shards, split, m as nat) + e);
        assert(m * e + e == (m + 1) * e) by (nonlinear_arith);
    }
}

/// When every one of the `np` shard records of a divided tensor passes the
/// shape check, their extents along the divided axis add up to the
/// tensor's full extent along it (for an extent that `np` divides).
pub proof fn lemma_shard_extents_sum(
    t: TensorHandle,
    split: SplitAxis,
    np: int,
    shards: Seq<RecordHeader>,
)
    requires
        np >= 1,
        shards.len() == np,
        full_extent(t, split) % np == 0,
        forall|k: int|
            0 <= k < shards.len() ==> #[trigger] shards[k].n_dims == 2 && shape_ok(
                t,
                shards[k],
                np,
                split,
            ),
    ensures
        sum_extents(shards, split, np as nat) == full_extent(t, split),
{
    lemma_sum_extents_prefix(t, split, np, shards, np as nat);
    let d = full_extent(t, split);
    assert(np * (d / np) == d) by (nonlinear_arith)
        requires
            np >= 1,
            d % np == 0,
    ;
}

/// In a model of one shard, a record that loads is copied whole: its data
/// is exactly as long as its tensor and lands, byte for byte, over the
/// tensor's bytes in one contiguous write.
pub proof fn lemma_single_shard_copies_whole(
    entries: Seq<RegistryEntry>,
    data: Seq<u8>,
    b: Seq<u8>,
    pos: int,
)
    requires
        entries_in(entries, data.len() as int),
        record_spec(entries, b, pos, 0, 1) is Ok,
    ensures
        ({
            let step = record_spec(entries, b, pos, 0, 1).unwrap();
            let r = record_header_spec(b, pos).unwrap();
            let k = lookup(entries, b.subrange(r.name_start as int, r.data_start as int)).unwrap();
            let t = entries[k].tensor;
            &&& step.0 == t.offset
            &&& step.5 - step.4 == t.nbytes
            &&& apply_step(data, b, step) == write_at(data, t.offset as int, b.subrange(step.4, step.5))
            &&& apply_step(data, b, step).subrange(t.offset as int, t.end()) == b.subrange(step.4, step.5)
        }),
{
    let step = record_spec(entries, b, pos, 0, 1).unwrap();
    let r = record_header_spec(b, pos).unwrap();
    let k = lookup(entries, b.subrange(r.name_start as int, r.data_start as int)).unwrap();
    lemma_lookup_range(entries, b.subrange(r.name_start as int, r.data_start as int));
    let t = entries[k].tensor;
    assert(entries[k].tensor.wf());
    assert(t.end() <= data.len());
    let src = b.subrange(step.4, step.5);
    assert(src.len() == t.nbytes);
    assert(strided_write(data, step.0, step.1, step.2, 0, src) == data);
    assert(src.subrange(0, step.2) =~= src);
    assert(apply_step(data, b, step).subrange(t.offset as int, t.end()) =~= src);
}

/// The arena bytes after the records of a one-shard file from `pos` on,
/// each written whole over its tensor, until the end or the first record
/// that does not load.
pub open spec fn whole_copies(
    entries: Seq<RegistryEntry>,
    data: Seq<u8>,
    b: Seq<u8>,
    pos: int,
) -> Seq<u8>
    decreases b.len() - pos,
{
    if pos >= b.len() {
        data
    } else {
        match record_spec(entries, b, pos, 0, 1) {
            Err(_) => data,
            Ok(step) => if pos < step.5 <= b.len() {
                let r = record_header_spec(b, pos).unwrap();
                let k = lookup(entries, b.subrange(r.name_start as int, r.data_start as int)).unwrap();
                let t = entries[k].tensor;
                whole_copies(
                    entries,
                    write_at(data, t.offset as int, b.subrange(step.4, step.5)),
                    b,
                    step.5,
                )
            } else {
                data
            },
        }
    }
}

/// Loading a file into a model of one shard performs whole copies only:
/// the arena ends as if each record that loaded, in file order, had been
/// written whole over its tensor, with no row or column slicing.
pub proof fn lemma_single_shard_file_copies_whole(
    entries: Seq<RegistryEntry>,
    data: Seq<u8>,
    b: Seq<u8>,
    pos: int,
)
    requires
        entries_in(entries, data.len() as int),
    ensures
        part_spec(entries, data, b, pos, 0, 1).0 == whole_copies(entries, data, b, pos),
    decreases b.len() - pos,
{
    if pos < b.len() {
        match record_spec(entries, b, pos, 0, 1) {
            Err(_) => {},
            Ok(step) => {
                if pos < step.5 <= b.len() {
                    lemma_single_shard_copies_whole(entries, data, b, pos);
                    let r = record_header_spec(b, pos).unwrap();
                    let k = lookup(entries, b.subrange(r.name_start as int, r.data_start as int)).unwrap();
                    lemma_lookup_range(entries, b.subrange(r.name_start as int, r.data_start as int));
                    assert(entries[k].tensor.wf());
                    let t = entries[k].tensor;
                    assert(t.end() <= data.len());
                    let next = apply_step(data, b, step);
                    assert(next.len() == data.len());
                    lemma_single_shard_file_copies_whole(entries, next, b, step.5);
                }
            },
        }
    }
}

} // verus!

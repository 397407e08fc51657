use vstd::prelude::*;

use crate::error::{ConfigError, LoadError};
use crate::hparams::{scaled, type_size_spec, QuantType};

verus! {

/// A view into the arena: element type, shape (`ne0` elements per row,
/// `ne1` rows) and the byte range that holds the tensor.
#[derive(Debug, Clone, Copy, PartialEq, Eq, Structural)]
pub struct TensorHandle {
    pub qtype: QuantType,
    pub ne0: u64,
    pub ne1: u64,
    pub offset: usize,
    pub nbytes: usize,
}

/// Bound on a tensor's row count: a size from an `i32` header field, or the
/// feed-forward width derived from one.
pub open spec fn dim_bound() -> int {
    0x1_0000_0000
}

impl TensorHandle {
    /// The byte size matches the shape and the element type.
    pub open spec fn wf(&self) -> bool {
        &&& self.ne1 < dim_bound()
        &&& self.nbytes == scaled(self.ne0 * self.ne1, self.qtype)
    }

    /// One past the tensor's last byte.
    pub open spec fn end(&self) -> int {
        self.offset + self.nbytes
    }

    /// Number of elements.
    pub fn nelements(&self) -> (r: u128)
        requires
            self.wf(),
        ensures
            r == self.ne0 * self.ne1,
    {
        assert(self.ne0 * self.ne1 <= 0x1_0000_0000_0000_0000 * dim_bound()) by (nonlinear_arith)
            requires
                self.ne0 < 0x1_0000_0000_0000_0000,
                self.ne1 < dim_bound(),
        ;
        (self.ne0 as u128) * (self.ne1 as u128)
    }
}

/// `old` with `src` written over it at `at`.
pub open spec fn write_at(old: Seq<u8>, at: int, src: Seq<u8>) -> Seq<u8> {
    old.subrange(0, at) + src + old.subrange(at + src.len(), old.len() as int)
}

/// One contiguous region of bytes that owns the storage of every tensor.
/// Its capacity is fixed when it is made; `used` bytes are handed out.
pub struct Arena {
    pub data: Vec<u8>,
    pub used: usize,
}

impl Arena {
    pub open spec fn wf(&self) -> bool {
        self.used <= self.data@.len()
    }

    pub open spec fn capacity(&self) -> int {
        self.data@.len() as int
    }

    /// An arena of `capacity` zero bytes, none of them handed out.
    pub fn new(capacity: usize) -> (r: Arena)
        ensures
            r.wf(),
            r.capacity() == capacity,
            r.used == 0,
            forall|i: int| 0 <= i < capacity ==> r.data@[i] == 0,
    {
        Arena { data: vec![0u8; capacity], used: 0 }
    }

    /// Hands out room for a tensor of type `q` and shape `ne0` x `ne1`, or
    /// fails where it does not fit in what is left.
    pub fn new_tensor(&mut self, q: QuantType, ne0: u64, ne1: u64) -> (r: Result<
        TensorHandle,
        LoadError,
    >)
        requires
            old(self).wf(),
            ne1 < dim_bound(),
        ensures
            final(self).wf(),
            final(self).data == old(self).data,
            r is Ok <==> old(self).used + scaled(ne0 * ne1, q) <= old(self).capacity(),
            r is Err ==> final(self).used == old(self).used && r->Err_0 == LoadError::Config(
                ConfigError::ArenaSize,
            ),
            r is Ok ==> {
                let t = r->Ok_0;
                &&& t.wf()
                &&& t.qtype == q
                &&& t.ne0 == ne0
                &&& t.ne1 == ne1
                &&& t.offset == old(self).used
                &&& final(self).used == t.end()
            },
    {
        assert(ne0 * ne1 <= 0x1_0000_0000_0000_0000 * dim_bound()) by (nonlinear_arith)
            requires
                ne0 < 0x1_0000_0000_0000_0000,
                ne1 < dim_bound(),
        ;
        let n = (ne0 as u128) * (ne1 as u128);
        assert(n * type_size_spec(q) <= 24 * 0x1_0000_0000_0000_0000 * dim_bound()) by (nonlinear_arith)
            requires
                n <= 0x1_0000_0000_0000_0000 * dim_bound(),
                0 < type_size_spec(q) <= 24,
        ;
        let bytes: u128 = n * (q.type_size() as u128) / (q.block_size() as u128);
        let room = self.data.len() - self.used;
        if bytes > room as u128 {
            return Err(LoadError::Config(ConfigError::ArenaSize));
        }
        let t = TensorHandle { qtype: q, ne0, ne1, offset: self.used, nbytes: bytes as usize };
        self.used = self.used + bytes as usize;
        Ok(t)
    }

    /// Overwrites `len` bytes at `at` with `src[from..from + len]`.
    pub fn write(&mut self, at: usize, src: &[u8], from: usize, len: usize)
        requires
            at + len <= old(self).data@.len(),
            from + len <= src@.len(),
        ensures
            final(self).used == old(self).used,
            final(self).data@ == write_at(
                old(self).data@,
                at as int,
                src@.subrange(from as int, from + len),
            ),
    {
        let ghost start = self.data@;
        let dlen = self.data.len();
        let slen = src.len();
        let mut i: usize = 0;
        while i < len
            invariant
                i <= len,
                at + len <= start.len(),
                from + len <= src@.len(),
                self.data@.len() == start.len(),
                dlen == start.len(),
                slen == src@.len(),
                self.used == old(self).used,
                self.data@ == write_at(start, at as int, src@.subrange(from as int, from + i)),
            decreases len - i,
        {
            self.data.set(at + i, src[from + i]);
            assert(self.data@ =~= write_at(
                start,
                at as int,
                src@.subrange(from as int, from + i + 1),
            ));
            i = i + 1;
        }
    }
}

} // verus!

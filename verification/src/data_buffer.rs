//! Byte storage of attribute values, with an identifier and a counter of
//! updates.
use vstd::prelude::*;

verus! {

/// `s` cut or padded with zero bytes to length `n`.
pub open spec fn resized(s: Seq<u8>, n: nat) -> Seq<u8> {
    Seq::new(n, |i: int| if i < s.len() { s[i] } else { 0u8 })
}

/// `s` padded with zero bytes to length `n` if it is shorter, else `s`.
pub open spec fn grown(s: Seq<u8>, n: nat) -> Seq<u8> {
    if n > s.len() {
        resized(s, n)
    } else {
        s
    }
}

/// `s` with the bytes from `pos` on replaced by `d`.
pub open spec fn spliced(s: Seq<u8>, pos: int, d: Seq<u8>) -> Seq<u8> {
    s.subrange(0, pos) + d + s.subrange(pos + d.len(), s.len() as int)
}

/// Identifier and update counter of a data buffer.
#[derive(Debug, Clone)]
pub struct DataBufferDescriptor {
    pub buffer_id: i64,
    pub buffer_update_count: i64,
}

impl Default for DataBufferDescriptor {
    fn default() -> (r: Self)
        ensures
            r.buffer_id == 0,
            r.buffer_update_count == 0,
    {
        DataBufferDescriptor { buffer_id: 0, buffer_update_count: 0 }
    }
}

/// A growable byte buffer holding attribute values.
#[derive(Debug, Clone)]
pub struct DataBuffer {
    data: Vec<u8>,
    descriptor: DataBufferDescriptor,
}

/// Resizes `v` to `n` bytes, padding with zeros.
fn resize_bytes(v: &mut Vec<u8>, n: usize)
    ensures
        final(v)@ == resized(old(v)@, n as nat),
{
    let ghost before = v@;
    v.resize(n, 0);
    proof {
        assert forall|i: int| 0 <= i < n implies #[trigger] v@[i] == resized(before, n as nat)[i] by {
            if i < before.len() {
                if n > before.len() {
                    assert(v@.subrange(0, before.len() as int)[i] == v@[i]);
                } else {
                    assert(v@ == before.subrange(0, n as int));
                }
            } else {
                assert(cloned::<u8>(0u8, v@[i]));
            }
        }
        assert(v@ =~= resized(before, n as nat));
    }
}

/// Copies `src` into `dst` from byte `pos` on.
fn copy_into(dst: &mut Vec<u8>, pos: usize, src: &[u8])
    requires
        pos + src@.len() <= old(dst)@.len(),
    ensures
        final(dst)@ == spliced(old(dst)@, pos as int, src@),
{
    let n = src.len();
    let mut i: usize = 0;
    assert(dst@.len() == dst.len());
    while i < n
        invariant
            n == src@.len(),
            pos + n <= usize::MAX,
            pos + n <= old(dst)@.len(),
            dst@.len() == old(dst)@.len(),
            i <= n,
            forall|j: int| 0 <= j < pos ==> #[trigger] dst@[j] == old(dst)@[j],
            forall|j: int| pos + n <= j < dst@.len() ==> #[trigger] dst@[j] == old(dst)@[j],
            forall|j: int| pos <= j < pos + i ==> #[trigger] dst@[j] == src@[j - pos],
            forall|j: int| pos + i <= j < pos + n ==> #[trigger] dst@[j] == old(dst)@[j],
        decreases n - i,
    {
        dst.set(pos + i, src[i]);
        i = i + 1;
    }
    proof {
        assert(dst@ =~= spliced(old(dst)@, pos as int, src@));
    }
}

impl DataBuffer {
    /// The bytes of the buffer.
    pub closed spec fn bytes(&self) -> Seq<u8> {
        self.data@
    }

    /// The buffer's identifier.
    pub closed spec fn id_spec(&self) -> i64 {
        self.descriptor.buffer_id
    }

    /// The buffer's update counter.
    pub closed spec fn update_count_spec(&self) -> i64 {
        self.descriptor.buffer_update_count
    }

    /// Creates an empty buffer with identifier and update counter 0.
    pub fn new() -> (r: Self)
        ensures
            r.bytes() == Seq::<u8>::empty(),
            r.id_spec() == 0,
            r.update_count_spec() == 0,
    {
        DataBuffer { data: Vec::new(), descriptor: DataBufferDescriptor::default() }
    }

    /// Copies `data` into the buffer at byte `offset` (0 when `None`),
    /// growing the buffer with zeros as needed, and counts one update.
    pub fn update(&mut self, data: &[u8], offset: Option<usize>)
        requires
            (match offset {
                Some(o) => o,
                None => 0,
            }) + data@.len() <= usize::MAX,
            old(self).update_count_spec() < i64::MAX,
        ensures
            ({
                let o: int = match offset {
                    Some(o) => o as int,
                    None => 0,
                };
                final(self).bytes() == spliced(
                    grown(old(self).bytes(), (o + data@.len()) as nat),
                    o,
                    data@,
                )
            }),
            final(self).id_spec() == old(self).id_spec(),
            final(self).update_count_spec() == old(self).update_count_spec() + 1,
    {
        let offset = match offset {
            Some(o) => o,
            None => 0,
        };
        let end = offset + data.len();
        if end > self.data.len() {
            resize_bytes(&mut self.data, end);
        }
        copy_into(&mut self.data, offset, data);
        self.descriptor.buffer_update_count = self.descriptor.buffer_update_count + 1;
    }

    /// Cuts or pads (with zeros) the buffer to `new_size` bytes.
    pub fn resize(&mut self, new_size: usize)
        ensures
            final(self).bytes() == resized(old(self).bytes(), new_size as nat),
            final(self).id_spec() == old(self).id_spec(),
            final(self).update_count_spec() == old(self).update_count_spec(),
    {
        resize_bytes(&mut self.data, new_size);
    }

    /// Fills `out_data` with the bytes from `byte_pos` on.
    pub fn read(&self, byte_pos: usize, out_data: &mut [u8])
        requires
            byte_pos + old(out_data)@.len() <= self.bytes().len(),
        ensures
            final(out_data)@ == self.bytes().subrange(byte_pos as int, byte_pos + old(out_data)@.len()),
    {
        let n = out_data.len();
        let mut i: usize = 0;
        assert(self.data@.len() == self.data.len());
        while i < n
            invariant
                n == out_data@.len(),
                byte_pos + n <= usize::MAX,
                byte_pos + n <= self.data@.len(),
                i <= n,
                forall|j: int| 0 <= j < i ==> #[trigger] out_data@[j] == self.data@[byte_pos + j],
            decreases n - i,
        {
            out_data[i] = self.data[byte_pos + i];
            i = i + 1;
        }
        proof {
            assert(out_data@ =~= self.data@.subrange(byte_pos as int, byte_pos + n));
        }
    }

    /// Overwrites the bytes from `byte_pos` on with `in_data`.
    pub fn write(&mut self, byte_pos: usize, in_data: &[u8])
        requires
            byte_pos + in_data@.len() <= old(self).bytes().len(),
        ensures
            final(self).bytes() == spliced(old(self).bytes(), byte_pos as int, in_data@),
            final(self).id_spec() == old(self).id_spec(),
            final(self).update_count_spec() == old(self).update_count_spec(),
    {
        copy_into(&mut self.data, byte_pos, in_data);
    }

    /// Copies `size` bytes of `src_buf` from `src_offset` on into this
    /// buffer at `dst_offset`, growing it with zeros as needed.
    pub fn copy(&mut self, dst_offset: usize, src_buf: &DataBuffer, src_offset: usize, size: usize)
        requires
            src_offset + size <= src_buf.bytes().len(),
            dst_offset + size <= usize::MAX,
        ensures
            final(self).bytes() == spliced(
                grown(old(self).bytes(), (dst_offset + size) as nat),
                dst_offset as int,
                src_buf.bytes().subrange(src_offset as int, src_offset + size),
            ),
            final(self).id_spec() == old(self).id_spec(),
            final(self).update_count_spec() == old(self).update_count_spec(),
    {
        assert(src_buf.data@.len() == src_buf.data.len());
        let src_slice = vstd::slice::slice_subrange(src_buf.data.as_slice(), src_offset, src_offset + size);
        if dst_offset + size > self.data.len() {
            resize_bytes(&mut self.data, dst_offset + size);
        }
        copy_into(&mut self.data, dst_offset, src_slice);
    }

    /// Sets the update counter.
    pub fn set_update_count(&mut self, count: i64)
        ensures
            final(self).update_count_spec() == count,
            final(self).bytes() == old(self).bytes(),
            final(self).id_spec() == old(self).id_spec(),
    {
        self.descriptor.buffer_update_count = count;
    }

    /// Returns the update counter.
    pub fn update_count(&self) -> (r: i64)
        ensures
            r == self.update_count_spec(),
    {
        self.descriptor.buffer_update_count
    }

    /// Returns the number of bytes in the buffer.
    pub fn data_size(&self) -> (r: usize)
        ensures
            r == self.bytes().len(),
    {
        self.data.len()
    }

    /// Returns the bytes of the buffer.
    pub fn data(&self) -> (r: &[u8])
        ensures
            r@ == self.bytes(),
    {
        self.data.as_slice()
    }

    /// Returns the bytes of the buffer for modification in place.
    pub fn data_mut(&mut self) -> (r: &mut [u8])
        ensures
            r@ == old(self).bytes(),
            final(self).bytes() == final(r)@,
            final(self).id_spec() == old(self).id_spec(),
            final(self).update_count_spec() == old(self).update_count_spec(),
    {
        self.data.as_mut_slice()
    }

    /// Returns the buffer's identifier.
    pub fn buffer_id(&self) -> (r: i64)
        ensures
            r == self.id_spec(),
    {
        self.descriptor.buffer_id
    }

    /// Sets the buffer's identifier.
    pub fn set_buffer_id(&mut self, buffer_id: i64)
        ensures
            final(self).id_spec() == buffer_id,
            final(self).bytes() == old(self).bytes(),
            final(self).update_count_spec() == old(self).update_count_spec(),
    {
        self.descriptor.buffer_id = buffer_id;
    }
}

impl Default for DataBuffer {
    fn default() -> (r: Self)
        ensures
            r.bytes() == Seq::<u8>::empty(),
            r.id_spec() == 0,
            r.update_count_spec() == 0,
    {
        DataBuffer::new()
    }
}

/// What `write`, `update` or `copy` put at a position is what `read` gives
/// back from there, and the bytes around it keep their values.
pub proof fn lemma_read_after_write(s: Seq<u8>, pos: int, d: Seq<u8>)
    requires
        0 <= pos,
        pos + d.len() <= s.len(),
    ensures
        spliced(s, pos, d).len() == s.len(),
        spliced(s, pos, d).subrange(pos, pos + d.len()) == d,
        forall|i: int|
            0 <= i < s.len() && !(pos <= i < pos + d.len()) ==> #[trigger] spliced(s, pos, d)[i] == s[i],
{
    assert(spliced(s, pos, d).subrange(pos, pos + d.len()) =~= d);
}

/// Growing a buffer keeps its bytes and adds zeros after them.
pub proof fn lemma_grown_keeps_bytes(s: Seq<u8>, n: nat)
    ensures
        grown(s, n).len() == if n > s.len() {
            n
        } else {
            s.len()
        },
        forall|i: int| 0 <= i < s.len() ==> #[trigger] grown(s, n)[i] == s[i],
        forall|i: int| s.len() <= i < grown(s, n).len() ==> #[trigger] grown(s, n)[i] == 0,
{
}

} // verus!

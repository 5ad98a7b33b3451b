//! Bounded 512-byte read/write cursor over a DNS datagram.
use vstd::prelude::*;

verus! {

/// Size of a DNS datagram buffer.
pub const BUF_SIZE: usize = 512;

/// Errors of the codec and of the transport around it.
#[derive(Debug, Clone, Copy, PartialEq, Eq, Structural)]
pub enum DnsError {
    EndOfBuffer,
    JumpLimitExceeded,
    MalformedPacket,
    TransportError,
    HopLimitExceeded,
}

/// Replace `bytes.len()` bytes of `buf` starting at `pos`.
pub open spec fn splice(buf: Seq<u8>, pos: int, bytes: Seq<u8>) -> Seq<u8> {
    buf.subrange(0, pos) + bytes + buf.subrange(pos + bytes.len(), buf.len() as int)
}

/// Big-endian encoding of a 16-bit value.
pub open spec fn be16(v: u16) -> Seq<u8> {
    seq![(v / 256) as u8, (v % 256) as u8]
}

/// Big-endian encoding of a 32-bit value.
pub open spec fn be32(v: u32) -> Seq<u8> {
    be16((v / 65536) as u16) + be16((v % 65536) as u16)
}

/// Big-endian value of two bytes.
pub open spec fn u16_of(b0: u8, b1: u8) -> u16 {
    (b0 as int * 256 + b1 as int) as u16
}

/// Big-endian value of four bytes.
pub open spec fn u32_of(b: Seq<u8>, p: int) -> u32 {
    (b[p] as int * 16777216 + b[p + 1] as int * 65536 + b[p + 2] as int * 256
        + b[p + 3] as int) as u32
}

/// Two adjacent splices are one splice of the concatenation.
pub proof fn lemma_splice_concat(b: Seq<u8>, p: int, x: Seq<u8>, y: Seq<u8>)
    requires
        0 <= p,
        p + x.len() + y.len() <= b.len(),
    ensures
        splice(splice(b, p, x), p + x.len(), y) == splice(b, p, x + y),
{
    assert(splice(splice(b, p, x), p + x.len(), y) =~= splice(b, p, x + y));
}

pub struct BytePacketBuffer {
    pub buf: Vec<u8>,
    pub pos: usize,
}

impl BytePacketBuffer {
    pub open spec fn wf(&self) -> bool {
        self.buf@.len() == BUF_SIZE && self.pos <= BUF_SIZE
    }

    /// A zeroed buffer with the cursor at the start.
    pub fn new() -> (r: Self)
        ensures
            r.wf(),
            r.pos == 0,
            r.buf@ == Seq::new(BUF_SIZE as nat, |i: int| 0u8),
    {
        let mut buf: Vec<u8> = Vec::new();
        while buf.len() < BUF_SIZE
            invariant
                buf@.len() <= BUF_SIZE,
                forall|i: int| 0 <= i < buf@.len() ==> buf@[i] == 0u8,
            decreases BUF_SIZE - buf.len(),
        {
            buf.push(0u8);
        }
        assert(buf@ =~= Seq::new(BUF_SIZE as nat, |i: int| 0u8));
        BytePacketBuffer { buf, pos: 0 }
    }

    /// A buffer holding `data` at its start (zero-padded), cursor at 0.
    pub fn from_bytes(data: &[u8]) -> (r: Result<Self, DnsError>)
        ensures
            data@.len() > BUF_SIZE <==> r is Err,
            r is Err ==> r == Err::<Self, DnsError>(DnsError::EndOfBuffer),
            r matches Ok(b) ==> b.wf() && b.pos == 0 && b.buf@.subrange(0, data@.len() as int)
                == data@ && forall|i: int| data@.len() <= i < BUF_SIZE ==> b.buf@[i] == 0u8,
    {
        if data.len() > BUF_SIZE {
            return Err(DnsError::EndOfBuffer);
        }
        let mut buf: Vec<u8> = Vec::new();
        while buf.len() < BUF_SIZE
            invariant
                data@.len() <= BUF_SIZE,
                buf@.len() <= BUF_SIZE,
                forall|i: int| 0 <= i < buf@.len() ==> buf@[i] == if i < data@.len() {
                    data@[i]
                } else {
                    0u8
                },
            decreases BUF_SIZE - buf.len(),
        {
            if buf.len() < data.len() {
                buf.push(data[buf.len()]);
            } else {
                buf.push(0u8);
            }
        }
        assert(buf@.subrange(0, data@.len() as int) =~= data@);
        Ok(BytePacketBuffer { buf, pos: 0 })
    }

    pub fn pos(&self) -> (r: usize)
        ensures
            r == self.pos,
    {
        self.pos
    }

    /// Advance the cursor by `steps`.
    pub fn step(&mut self, steps: usize) -> (r: Result<(), DnsError>)
        requires
            old(self).wf(),
        ensures
            final(self).wf(),
            final(self).buf == old(self).buf,
            old(self).pos + steps <= BUF_SIZE ==> r is Ok && final(self).pos == old(self).pos + steps,
            old(self).pos + steps > BUF_SIZE ==> r == Err::<(), DnsError>(DnsError::EndOfBuffer)
                && final(self).pos == old(self).pos,
    {
        if steps > BUF_SIZE - self.pos {
            return Err(DnsError::EndOfBuffer);
        }
        self.pos = self.pos + steps;
        Ok(())
    }

    /// Move the cursor to `pos`.
    pub fn seek(&mut self, pos: usize) -> (r: Result<(), DnsError>)
        requires
            old(self).wf(),
        ensures
            final(self).wf(),
            final(self).buf == old(self).buf,
            pos <= BUF_SIZE ==> r is Ok && final(self).pos == pos,
            pos > BUF_SIZE ==> r == Err::<(), DnsError>(DnsError::EndOfBuffer)
                && final(self).pos == old(self).pos,
    {
        if pos > BUF_SIZE {
            return Err(DnsError::EndOfBuffer);
        }
        self.pos = pos;
        Ok(())
    }

    /// Read one byte at the cursor and advance.
    pub fn read_u8(&mut self) -> (r: Result<u8, DnsError>)
        requires
            old(self).wf(),
        ensures
            final(self).wf(),
            final(self).buf == old(self).buf,
            old(self).pos < BUF_SIZE ==> r == Ok::<u8, DnsError>(old(self).buf@[old(self).pos as int])
                && final(self).pos == old(self).pos + 1,
            old(self).pos >= BUF_SIZE ==> r == Err::<u8, DnsError>(DnsError::EndOfBuffer)
                && final(self).pos == old(self).pos,
    {
        if self.pos >= BUF_SIZE {
            return Err(DnsError::EndOfBuffer);
        }
        let b = self.buf[self.pos];
        self.pos = self.pos + 1;
        Ok(b)
    }

    /// Read a big-endian 16-bit value at the cursor and advance by two.
    pub fn read_u16(&mut self) -> (r: Result<u16, DnsError>)
        requires
            old(self).wf(),
        ensures
            final(self).wf(),
            final(self).buf == old(self).buf,
            old(self).pos + 2 <= BUF_SIZE ==> r == Ok::<u16, DnsError>(
                u16_of(old(self).buf@[old(self).pos as int], old(self).buf@[old(self).pos + 1]),
            ) && final(self).pos == old(self).pos + 2,
            old(self).pos + 2 > BUF_SIZE ==> r == Err::<u16, DnsError>(DnsError::EndOfBuffer)
                && final(self).pos == old(self).pos,
    {
        if self.pos + 2 > BUF_SIZE {
            return Err(DnsError::EndOfBuffer);
        }
        let hi = self.buf[self.pos] as u16;
        let lo = self.buf[self.pos + 1] as u16;
        self.pos = self.pos + 2;
        Ok(hi * 256 + lo)
    }

    /// Read a big-endian 32-bit value at the cursor and advance by four.
    pub fn read_u32(&mut self) -> (r: Result<u32, DnsError>)
        requires
            old(self).wf(),
        ensures
            final(self).wf(),
            final(self).buf == old(self).buf,
            old(self).pos + 4 <= BUF_SIZE ==> r == Ok::<u32, DnsError>(
                u32_of(old(self).buf@, old(self).pos as int),
            ) && final(self).pos == old(self).pos + 4,
            old(self).pos + 4 > BUF_SIZE ==> r == Err::<u32, DnsError>(DnsError::EndOfBuffer)
                && final(self).pos == old(self).pos,
    {
        if self.pos + 4 > BUF_SIZE {
            return Err(DnsError::EndOfBuffer);
        }
        let p = self.pos;
        let b0 = self.buf[p] as u32;
        let b1 = self.buf[p + 1] as u32;
        let b2 = self.buf[p + 2] as u32;
        let b3 = self.buf[p + 3] as u32;
        self.pos = p + 4;
        Ok(b0 * 16777216 + b1 * 65536 + b2 * 256 + b3)
    }

    /// The byte at `pos`, without moving the cursor.
    pub fn get(&self, pos: usize) -> (r: Result<u8, DnsError>)
        requires
            self.wf(),
        ensures
            pos < BUF_SIZE ==> r == Ok::<u8, DnsError>(self.buf@[pos as int]),
            pos >= BUF_SIZE ==> r == Err::<u8, DnsError>(DnsError::EndOfBuffer),
    {
        if pos >= BUF_SIZE {
            return Err(DnsError::EndOfBuffer);
        }
        Ok(self.buf[pos])
    }

    /// A copy of `len` bytes starting at `start`.
    pub fn get_range(&self, start: usize, len: usize) -> (r: Result<Vec<u8>, DnsError>)
        requires
            self.wf(),
        ensures
            start + len <= BUF_SIZE ==> (r matches Ok(v) && v@ == self.buf@.subrange(
                start as int,
                start + len,
            )),
            start + len > BUF_SIZE ==> r == Err::<Vec<u8>, DnsError>(DnsError::EndOfBuffer),
    {
        if start > BUF_SIZE || len > BUF_SIZE - start {
            return Err(DnsError::EndOfBuffer);
        }
        let mut out: Vec<u8> = Vec::new();
        let mut i: usize = 0;
        while i < len
            invariant
                start + len <= BUF_SIZE,
                self.wf(),
                i <= len,
                out@ == self.buf@.subrange(start as int, start + i),
            decreases len - i,
        {
            out.push(self.buf[start + i]);
            i = i + 1;
            assert(out@ =~= self.buf@.subrange(start as int, start + i));
        }
        Ok(out)
    }

    /// Write one byte at the cursor and advance.
    pub fn write_u8(&mut self, val: u8) -> (r: Result<(), DnsError>)
        requires
            old(self).wf(),
        ensures
            final(self).wf(),
            old(self).pos < BUF_SIZE ==> r is Ok && final(self).pos == old(self).pos + 1
                && final(self).buf@ == splice(old(self).buf@, old(self).pos as int, seq![val]),
            old(self).pos >= BUF_SIZE ==> r == Err::<(), DnsError>(DnsError::EndOfBuffer)
                && *final(self) == *old(self),
    {
        if self.pos >= BUF_SIZE {
            return Err(DnsError::EndOfBuffer);
        }
        let p = self.pos;
        self.buf.set(p, val);
        self.pos = p + 1;
        assert(self.buf@ =~= splice(old(self).buf@, p as int, seq![val]));
        Ok(())
    }

    /// Write a big-endian 16-bit value at the cursor and advance by two.
    pub fn write_u16(&mut self, val: u16) -> (r: Result<(), DnsError>)
        requires
            old(self).wf(),
        ensures
            final(self).wf(),
            old(self).pos + 2 <= BUF_SIZE ==> r is Ok && final(self).pos == old(self).pos + 2
                && final(self).buf@ == splice(old(self).buf@, old(self).pos as int, be16(val)),
            old(self).pos + 2 > BUF_SIZE ==> r == Err::<(), DnsError>(DnsError::EndOfBuffer)
                && *final(self) == *old(self),
    {
        if self.pos + 2 > BUF_SIZE {
            return Err(DnsError::EndOfBuffer);
        }
        let p = self.pos;
        self.buf.set(p, (val / 256) as u8);
        self.buf.set(p + 1, (val % 256) as u8);
        self.pos = p + 2;
        assert(self.buf@ =~= splice(old(self).buf@, p as int, be16(val)));
        Ok(())
    }

    /// Write a big-endian 32-bit value at the cursor and advance by four.
    pub fn write_u32(&mut self, val: u32) -> (r: Result<(), DnsError>)
        requires
            old(self).wf(),
        ensures
            final(self).wf(),
            old(self).pos + 4 <= BUF_SIZE ==> r is Ok && final(self).pos == old(self).pos + 4
                && final(self).buf@ == splice(old(self).buf@, old(self).pos as int, be32(val)),
            old(self).pos + 4 > BUF_SIZE ==> r == Err::<(), DnsError>(DnsError::EndOfBuffer)
                && *final(self) == *old(self),
    {
        if self.pos + 4 > BUF_SIZE {
            return Err(DnsError::EndOfBuffer);
        }
        let p = self.pos;
        let hi = (val / 65536) as u16;
        let lo = (val % 65536) as u16;
        self.buf.set(p, (hi / 256) as u8);
        self.buf.set(p + 1, (hi % 256) as u8);
        self.buf.set(p + 2, (lo / 256) as u8);
        self.buf.set(p + 3, (lo % 256) as u8);
        self.pos = p + 4;
        assert(self.buf@ =~= splice(old(self).buf@, p as int, be32(val)));
        Ok(())
    }

    /// Overwrite a big-endian 16-bit value at `pos`, cursor unchanged.
    pub fn set_u16(&mut self, pos: usize, val: u16) -> (r: Result<(), DnsError>)
        requires
            old(self).wf(),
        ensures
            final(self).wf(),
            final(self).pos == old(self).pos,
            pos + 2 <= BUF_SIZE ==> r is Ok && final(self).buf@ == splice(
                old(self).buf@,
                pos as int,
                be16(val),
            ),
            pos + 2 > BUF_SIZE ==> r == Err::<(), DnsError>(DnsError::EndOfBuffer)
                && *final(self) == *old(self),
    {
        if pos > BUF_SIZE - 2 {
            return Err(DnsError::EndOfBuffer);
        }
        self.buf.set(pos, (val / 256) as u8);
        self.buf.set(pos + 1, (val % 256) as u8);
        assert(self.buf@ =~= splice(old(self).buf@, pos as int, be16(val)));
        Ok(())
    }
}

} // verus!

//! Query types, result codes and the fixed 12-byte packet header.
use vstd::prelude::*;
use crate::buffer::{be16, lemma_splice_concat, splice, u16_of, BytePacketBuffer, DnsError, BUF_SIZE};

verus! {

/// Record and question types. Types this codec does not decode keep their number.
#[derive(Debug, Clone, Copy, PartialEq, Eq, Structural)]
pub enum QueryType {
    UNKNOWN(u16),
    A,
    NS,
    CNAME,
    MX,
    AAAA,
}

impl QueryType {
    pub open spec fn num(self) -> u16 {
        match self {
            QueryType::UNKNOWN(x) => x,
            QueryType::A => 1,
            QueryType::NS => 2,
            QueryType::CNAME => 5,
            QueryType::MX => 15,
            QueryType::AAAA => 28,
        }
    }

    pub open spec fn of_num(n: u16) -> QueryType {
        if n == 1 {
            QueryType::A
        } else if n == 2 {
            QueryType::NS
        } else if n == 5 {
            QueryType::CNAME
        } else if n == 15 {
            QueryType::MX
        } else if n == 28 {
            QueryType::AAAA
        } else {
            QueryType::UNKNOWN(n)
        }
    }

    /// Named types use their own variant, never `UNKNOWN` with their number.
    pub open spec fn wf(self) -> bool {
        self matches QueryType::UNKNOWN(x) ==> QueryType::of_num(x) == self
    }

    pub fn to_num(&self) -> (r: u16)
        ensures
            r == self.num(),
    {
        match self {
            QueryType::UNKNOWN(x) => *x,
            QueryType::A => 1,
            QueryType::NS => 2,
            QueryType::CNAME => 5,
            QueryType::MX => 15,
            QueryType::AAAA => 28,
        }
    }

    pub fn from_num(n: u16) -> (r: QueryType)
        ensures
            r == QueryType::of_num(n),
            r.wf(),
            r.num() == n,
    {
        if n == 1 {
            QueryType::A
        } else if n == 2 {
            QueryType::NS
        } else if n == 5 {
            QueryType::CNAME
        } else if n == 15 {
            QueryType::MX
        } else if n == 28 {
            QueryType::AAAA
        } else {
            QueryType::UNKNOWN(n)
        }
    }
}

/// Response codes. On the wire a code this enum lacks reads as `NOERROR`.
#[derive(Debug, Clone, Copy, PartialEq, Eq, Structural)]
pub enum ResultCode {
    NOERROR,
    FORMERR,
    SERVFAIL,
    NXDOMAIN,
    NOTIMP,
    REFUSED,
}

impl ResultCode {
    pub open spec fn num(self) -> u8 {
        match self {
            ResultCode::NOERROR => 0,
            ResultCode::FORMERR => 1,
            ResultCode::SERVFAIL => 2,
            ResultCode::NXDOMAIN => 3,
            ResultCode::NOTIMP => 4,
            ResultCode::REFUSED => 5,
        }
    }

    pub open spec fn of_num(n: u8) -> ResultCode {
        if n == 1 {
            ResultCode::FORMERR
        } else if n == 2 {
            ResultCode::SERVFAIL
        } else if n == 3 {
            ResultCode::NXDOMAIN
        } else if n == 4 {
            ResultCode::NOTIMP
        } else if n == 5 {
            ResultCode::REFUSED
        } else {
            ResultCode::NOERROR
        }
    }

    pub fn to_num(&self) -> (r: u8)
        ensures
            r == self.num(),
    {
        match self {
            ResultCode::NOERROR => 0,
            ResultCode::FORMERR => 1,
            ResultCode::SERVFAIL => 2,
            ResultCode::NXDOMAIN => 3,
            ResultCode::NOTIMP => 4,
            ResultCode::REFUSED => 5,
        }
    }

    pub fn from_num(n: u8) -> (r: ResultCode)
        ensures
            r == ResultCode::of_num(n),
    {
        if n == 1 {
            ResultCode::FORMERR
        } else if n == 2 {
            ResultCode::SERVFAIL
        } else if n == 3 {
            ResultCode::NXDOMAIN
        } else if n == 4 {
            ResultCode::NOTIMP
        } else if n == 5 {
            ResultCode::REFUSED
        } else {
            ResultCode::NOERROR
        }
    }
}

#[derive(Debug, Clone, Copy, PartialEq, Eq, Structural)]
pub struct DnsHeader {
    pub id: u16,
    pub recursion_desired: bool,
    pub truncated_message: bool,
    pub authoritative_answer: bool,
    pub opcode: u8,
    pub response: bool,
    pub rescode: ResultCode,
    pub checking_disabled: bool,
    pub authed_data: bool,
    pub z: bool,
    pub recursion_available: bool,
    pub questions: u16,
    pub answers: u16,
    pub authoritative_entries: u16,
    pub resource_entries: u16,
}

pub open spec fn bit(b: bool) -> int {
    if b {
        1
    } else {
        0
    }
}

/// Third header byte: QR, opcode, AA, TC, RD from the high bit down.
pub open spec fn flags_hi(h: DnsHeader) -> u8 {
    (bit(h.response) * 128 + h.opcode * 8 + bit(h.authoritative_answer) * 4 + bit(
        h.truncated_message,
    ) * 2 + bit(h.recursion_desired)) as u8
}

/// Fourth header byte: RA, Z, AD, CD, then the 4-bit result code.
pub open spec fn flags_lo(h: DnsHeader) -> u8 {
    (bit(h.recursion_available) * 128 + bit(h.z) * 64 + bit(h.authed_data) * 32 + bit(
        h.checking_disabled,
    ) * 16 + h.rescode.num()) as u8
}

/// Wire form of a header.
pub open spec fn header_bytes(h: DnsHeader) -> Seq<u8> {
    be16(h.id) + seq![flags_hi(h), flags_lo(h)] + be16(h.questions) + be16(h.answers) + be16(
        h.authoritative_entries,
    ) + be16(h.resource_entries)
}

/// The header held by the twelve bytes at `p`.
pub open spec fn header_at(b: Seq<u8>, p: int) -> DnsHeader {
    let hi = b[p + 2];
    let lo = b[p + 3];
    DnsHeader {
        id: u16_of(b[p], b[p + 1]),
        recursion_desired: hi % 2 == 1,
        truncated_message: (hi / 2) % 2 == 1,
        authoritative_answer: (hi / 4) % 2 == 1,
        opcode: ((hi / 8) % 16) as u8,
        response: hi / 128 == 1,
        rescode: ResultCode::of_num(lo % 16),
        checking_disabled: (lo / 16) % 2 == 1,
        authed_data: (lo / 32) % 2 == 1,
        z: (lo / 64) % 2 == 1,
        recursion_available: lo / 128 == 1,
        questions: u16_of(b[p + 4], b[p + 5]),
        answers: u16_of(b[p + 6], b[p + 7]),
        authoritative_entries: u16_of(b[p + 8], b[p + 9]),
        resource_entries: u16_of(b[p + 10], b[p + 11]),
    }
}

proof fn lemma_u16_round_trip(v: u16)
    ensures
        u16_of(be16(v)[0], be16(v)[1]) == v,
{
}

proof fn lemma_flags_hi(r: int, op: int, aa: int, tc: int, rd: int)
    requires
        0 <= r <= 1,
        0 <= op < 16,
        0 <= aa <= 1,
        0 <= tc <= 1,
        0 <= rd <= 1,
    ensures
        ({
            let x = r * 128 + op * 8 + aa * 4 + tc * 2 + rd;
            &&& x % 2 == rd
            &&& (x / 2) % 2 == tc
            &&& (x / 4) % 2 == aa
            &&& (x / 8) % 16 == op
            &&& x / 128 == r
        }),
{
}

proof fn lemma_flags_lo(ra: int, z: int, ad: int, cd: int, rc: int)
    requires
        0 <= ra <= 1,
        0 <= z <= 1,
        0 <= ad <= 1,
        0 <= cd <= 1,
        0 <= rc < 16,
    ensures
        ({
            let x = ra * 128 + z * 64 + ad * 32 + cd * 16 + rc;
            &&& x % 16 == rc
            &&& (x / 16) % 2 == cd
            &&& (x / 32) % 2 == ad
            &&& (x / 64) % 2 == z
            &&& x / 128 == ra
        }),
{
}

/// Reading back the twelve bytes a header was written as gives that header.
pub proof fn lemma_header_round_trip(h: DnsHeader, b: Seq<u8>, p: int)
    requires
        h.wf(),
        0 <= p,
        p + 12 <= b.len(),
        b.subrange(p, p + 12) == header_bytes(h),
    ensures
        header_at(b, p) == h,
{
    let hb = header_bytes(h);
    assert forall|k: int| 0 <= k < 12 implies b[p + k] == hb[k] by {
        assert(b.subrange(p, p + 12)[k] == b[p + k]);
    }
    lemma_u16_round_trip(h.id);
    lemma_u16_round_trip(h.questions);
    lemma_u16_round_trip(h.answers);
    lemma_u16_round_trip(h.authoritative_entries);
    lemma_u16_round_trip(h.resource_entries);
    lemma_flags_hi(
        bit(h.response),
        h.opcode as int,
        bit(h.authoritative_answer),
        bit(h.truncated_message),
        bit(h.recursion_desired),
    );
    lemma_flags_lo(
        bit(h.recursion_available),
        bit(h.z),
        bit(h.authed_data),
        bit(h.checking_disabled),
        h.rescode.num() as int,
    );
    assert(hb[0] == be16(h.id)[0] && hb[1] == be16(h.id)[1]);
    assert(hb[2] == flags_hi(h) && hb[3] == flags_lo(h));
    assert(hb[4] == be16(h.questions)[0] && hb[5] == be16(h.questions)[1]);
    assert(hb[6] == be16(h.answers)[0] && hb[7] == be16(h.answers)[1]);
    assert(hb[8] == be16(h.authoritative_entries)[0] && hb[9] == be16(h.authoritative_entries)[1]);
    assert(hb[10] == be16(h.resource_entries)[0] && hb[11] == be16(h.resource_entries)[1]);
    let hd = header_at(b, p);
    assert(hd.id == h.id);
    assert(hd.questions == h.questions);
    assert(hd.recursion_desired == h.recursion_desired);
    assert(hd.opcode == h.opcode);
    assert(hd.rescode == h.rescode);
    assert(ResultCode::of_num(h.rescode.num()) == h.rescode);
}

impl DnsHeader {
    /// The opcode fits its four bits.
    pub open spec fn wf(&self) -> bool {
        self.opcode < 16
    }

    /// A zeroed header: id 0, no flags, `NOERROR`, empty sections.
    pub open spec fn new_spec() -> DnsHeader {
        DnsHeader {
            id: 0,
            recursion_desired: false,
            truncated_message: false,
            authoritative_answer: false,
            opcode: 0,
            response: false,
            rescode: ResultCode::NOERROR,
            checking_disabled: false,
            authed_data: false,
            z: false,
            recursion_available: false,
            questions: 0,
            answers: 0,
            authoritative_entries: 0,
            resource_entries: 0,
        }
    }

    pub fn new() -> (r: DnsHeader)
        ensures
            r == DnsHeader::new_spec(),
            r.wf(),
    {
        DnsHeader {
            id: 0,
            recursion_desired: false,
            truncated_message: false,
            authoritative_answer: false,
            opcode: 0,
            response: false,
            rescode: ResultCode::NOERROR,
            checking_disabled: false,
            authed_data: false,
            z: false,
            recursion_available: false,
            questions: 0,
            answers: 0,
            authoritative_entries: 0,
            resource_entries: 0,
        }
    }

    fn flags_hi_byte(&self) -> (r: u8)
        requires
            self.wf(),
        ensures
            r == flags_hi(*self),
    {
        let mut x: u8 = self.opcode * 8;
        if self.response {
            x = x + 128;
        }
        if self.authoritative_answer {
            x = x + 4;
        }
        if self.truncated_message {
            x = x + 2;
        }
        if self.recursion_desired {
            x = x + 1;
        }
        x
    }

    fn flags_lo_byte(&self) -> (r: u8)
        ensures
            r == flags_lo(*self),
    {
        let mut x: u8 = self.rescode.to_num();
        if self.recursion_available {
            x = x + 128;
        }
        if self.z {
            x = x + 64;
        }
        if self.authed_data {
            x = x + 32;
        }
        if self.checking_disabled {
            x = x + 16;
        }
        x
    }

    /// Read twelve header bytes at the cursor.
    pub fn read(buffer: &mut BytePacketBuffer) -> (r: Result<DnsHeader, DnsError>)
        requires
            old(buffer).wf(),
        ensures
            final(buffer).wf(),
            final(buffer).buf == old(buffer).buf,
            old(buffer).pos + 12 <= BUF_SIZE ==> r == Ok::<DnsHeader, DnsError>(
                header_at(old(buffer).buf@, old(buffer).pos as int),
            ) && final(buffer).pos == old(buffer).pos + 12,
            old(buffer).pos + 12 > BUF_SIZE ==> r == Err::<DnsHeader, DnsError>(
                DnsError::EndOfBuffer,
            ),
            r matches Ok(h) ==> h.wf(),
    {
        if buffer.pos > BUF_SIZE - 12 {
            return Err(DnsError::EndOfBuffer);
        }
        let id = buffer.read_u16()?;
        let hi = buffer.read_u8()?;
        let lo = buffer.read_u8()?;
        let questions = buffer.read_u16()?;
        let answers = buffer.read_u16()?;
        let authoritative_entries = buffer.read_u16()?;
        let resource_entries = buffer.read_u16()?;
        Ok(DnsHeader {
            id,
            recursion_desired: hi % 2 == 1,
            truncated_message: (hi / 2) % 2 == 1,
            authoritative_answer: (hi / 4) % 2 == 1,
            opcode: (hi / 8) % 16,
            response: hi / 128 == 1,
            rescode: ResultCode::from_num(lo % 16),
            checking_disabled: (lo / 16) % 2 == 1,
            authed_data: (lo / 32) % 2 == 1,
            z: (lo / 64) % 2 == 1,
            recursion_available: lo / 128 == 1,
            questions,
            answers,
            authoritative_entries,
            resource_entries,
        })
    }

    /// Write the header at the cursor.
    pub fn write(&self, buffer: &mut BytePacketBuffer) -> (r: Result<(), DnsError>)
        requires
            old(buffer).wf(),
            self.wf(),
        ensures
            final(buffer).wf(),
            old(buffer).pos + 12 <= BUF_SIZE ==> r is Ok && final(buffer).pos == old(buffer).pos
                + 12 && final(buffer).buf@ == splice(
                old(buffer).buf@,
                old(buffer).pos as int,
                header_bytes(*self),
            ),
            old(buffer).pos + 12 > BUF_SIZE ==> r == Err::<(), DnsError>(DnsError::EndOfBuffer)
                && *final(buffer) == *old(buffer),
    {
        if buffer.pos > BUF_SIZE - 12 {
            return Err(DnsError::EndOfBuffer);
        }
        let ghost b0 = buffer.buf@;
        let ghost base = buffer.pos as int;
        let hi = self.flags_hi_byte();
        let lo = self.flags_lo_byte();
        assert(hi == flags_hi(*self));
        assert(lo == flags_lo(*self));
        buffer.write_u16(self.id)?;
        let ghost a1 = be16(self.id);
        buffer.write_u8(hi)?;
        proof { lemma_splice_concat(b0, base, a1, seq![hi]); }
        let ghost a2 = a1 + seq![hi];
        buffer.write_u8(lo)?;
        proof { lemma_splice_concat(b0, base, a2, seq![lo]); }
        let ghost a3 = a2 + seq![lo];
        buffer.write_u16(self.questions)?;
        proof { lemma_splice_concat(b0, base, a3, be16(self.questions)); }
        let ghost a4 = a3 + be16(self.questions);
        buffer.write_u16(self.answers)?;
        proof { lemma_splice_concat(b0, base, a4, be16(self.answers)); }
        let ghost a5 = a4 + be16(self.answers);
        buffer.write_u16(self.authoritative_entries)?;
        proof { lemma_splice_concat(b0, base, a5, be16(self.authoritative_entries)); }
        let ghost a6 = a5 + be16(self.authoritative_entries);
        buffer.write_u16(self.resource_entries)?;
        proof { lemma_splice_concat(b0, base, a6, be16(self.resource_entries)); }
        assert(a6 + be16(self.resource_entries) =~= header_bytes(*self));
        Ok(())
    }
}

} // verus!

//! Questions and resource records.
use vstd::prelude::*;
use crate::buffer::{
    be16, be32, lemma_splice_concat, splice, u16_of, u32_of, BytePacketBuffer, DnsError, BUF_SIZE,
};
use crate::header::QueryType;
use crate::name::{encode_name, name_at, name_end, name_ok, MAX_NAME};
use crate::text::chars_of;

verus! {

#[derive(Debug, Clone, PartialEq, Eq)]
pub struct DnsQuestion {
    pub name: String,
    pub qtype: QueryType,
}

/// A question read at `p`: its name, type, and where the cursor ends.
pub open spec fn question_at(buf: Seq<u8>, p: int) -> Result<(Seq<char>, QueryType, int), DnsError> {
    match name_at(buf, p, 0) {
        Err(e) => Err(e),
        Ok(n) => {
            let q = name_end(buf, p);
            if q + 4 > buf.len() {
                Err(DnsError::EndOfBuffer)
            } else {
                Ok((n, QueryType::of_num(u16_of(buf[q], buf[q + 1])), q + 4))
            }
        },
    }
}

/// Wire form of a question; the class is always IN.
pub open spec fn question_bytes(name: Seq<char>, qtype: QueryType) -> Seq<u8> {
    encode_name(name) + be16(qtype.num()) + be16(1)
}

/// Length of the wire form of a valid name.
pub open spec fn name_len(s: Seq<char>) -> int {
    if s.len() == 0 {
        1
    } else {
        s.len() + 2 as int
    }
}

pub proof fn lemma_name_len(s: Seq<char>)
    requires
        name_ok(s),
    ensures
        encode_name(s).len() == name_len(s),
{
    crate::name::lemma_encoded_name_len(s);
}

impl DnsQuestion {
    pub fn new(name: String, qtype: QueryType) -> (r: DnsQuestion)
        ensures
            r.name == name,
            r.qtype == qtype,
    {
        DnsQuestion { name, qtype }
    }

    pub fn read(buffer: &mut BytePacketBuffer) -> (r: Result<DnsQuestion, DnsError>)
        requires
            old(buffer).wf(),
        ensures
            final(buffer).wf(),
            final(buffer).buf@ == old(buffer).buf@,
            match question_at(old(buffer).buf@, old(buffer).pos as int) {
                Ok((n, t, e)) => r matches Ok(q) && q.name@ == n && q.qtype == t && q.qtype.wf()
                    && final(buffer).pos == e,
                Err(e) => r == Err::<DnsQuestion, DnsError>(e),
            },
    {
        let name = buffer.read_qname()?;
        let t = buffer.read_u16()?;
        let _class = buffer.read_u16()?;
        Ok(DnsQuestion { name, qtype: QueryType::from_num(t) })
    }

    pub fn write(&self, buffer: &mut BytePacketBuffer) -> (r: Result<(), DnsError>)
        requires
            old(buffer).wf(),
        ensures
            final(buffer).wf(),
            !name_ok(self.name@) ==> r == Err::<(), DnsError>(DnsError::MalformedPacket),
            name_ok(self.name@) && old(buffer).pos + name_len(self.name@) + 4 > BUF_SIZE ==> r
                == Err::<(), DnsError>(DnsError::EndOfBuffer),
            name_ok(self.name@) && old(buffer).pos + name_len(self.name@) + 4 <= BUF_SIZE ==> r is Ok
                && final(buffer).pos == old(buffer).pos + name_len(self.name@) + 4
                && final(buffer).buf@ == splice(
                old(buffer).buf@,
                old(buffer).pos as int,
                question_bytes(self.name@, self.qtype),
            ),
    {
        let ghost b0 = buffer.buf@;
        let ghost base = buffer.pos as int;
        let n = chars_of(self.name.as_str()).len();
        proof {
            if name_ok(self.name@) {
                lemma_name_len(self.name@);
            }
        }
        if n <= MAX_NAME && (if n == 0 { 1 } else { n + 2 }) + 4 > BUF_SIZE - buffer.pos {
            if !crate::name::name_ok_exec(self.name.as_str()) {
                return Err(DnsError::MalformedPacket);
            }
            return Err(DnsError::EndOfBuffer);
        }
        buffer.write_qname(self.name.as_str())?;
        let ghost a = encode_name(self.name@);
        buffer.write_u16(self.qtype.to_num())?;
        proof { lemma_splice_concat(b0, base, a, be16(self.qtype.num())); }
        buffer.write_u16(1)?;
        proof { lemma_splice_concat(b0, base, a + be16(self.qtype.num()), be16(1)); }
        Ok(())
    }
}


/// A resource record. Every variant carries its owner name and TTL in seconds.
#[derive(Debug, Clone, PartialEq, Eq)]
pub enum DnsRecord {
    UNKNOWN { domain: String, qtype: u16, data_len: u16, ttl: u32 },
    A { domain: String, addr: u32, ttl: u32 },
    NS { domain: String, host: String, ttl: u32 },
    CNAME { domain: String, host: String, ttl: u32 },
    MX { domain: String, priority: u16, host: String, ttl: u32 },
    AAAA { domain: String, addr: u128, ttl: u32 },
}

/// A record with its names as character sequences.
pub enum RecordModel {
    UNKNOWN { domain: Seq<char>, qtype: u16, data_len: u16, ttl: u32 },
    A { domain: Seq<char>, addr: u32, ttl: u32 },
    NS { domain: Seq<char>, host: Seq<char>, ttl: u32 },
    CNAME { domain: Seq<char>, host: Seq<char>, ttl: u32 },
    MX { domain: Seq<char>, priority: u16, host: Seq<char>, ttl: u32 },
    AAAA { domain: Seq<char>, addr: u128, ttl: u32 },
}

/// Big-endian value of sixteen bytes.
pub open spec fn u128_of(b: Seq<u8>, p: int) -> u128 {
    (u32_of(b, p) as int * 0x1_0000_0000_0000_0000_0000_0000 + u32_of(b, p + 4) as int
        * 0x1_0000_0000_0000_0000 + u32_of(b, p + 8) as int * 0x1_0000_0000 + u32_of(b, p + 12) as int) as u128
}

/// Big-endian encoding of a 128-bit value.
pub open spec fn be128(v: u128) -> Seq<u8> {
    be32((v / 0x1_0000_0000_0000_0000_0000_0000) as u32) + be32(
        ((v / 0x1_0000_0000_0000_0000) % 0x1_0000_0000) as u32,
    ) + be32(((v / 0x1_0000_0000) % 0x1_0000_0000) as u32) + be32((v % 0x1_0000_0000) as u32)
}

/// The record read at `p`, and where the cursor ends.
pub open spec fn record_at(buf: Seq<u8>, p: int) -> Result<(RecordModel, int), DnsError> {
    match name_at(buf, p, 0) {
        Err(e) => Err(e),
        Ok(domain) => {
            let q = name_end(buf, p);
            if q + 10 > buf.len() {
                Err(DnsError::EndOfBuffer)
            } else {
                let t = u16_of(buf[q], buf[q + 1]);
                let ttl = u32_of(buf, q + 4);
                let len = u16_of(buf[q + 8], buf[q + 9]);
                let d = q + 10;
                if t == 1 {
                    if d + 4 > buf.len() {
                        Err(DnsError::EndOfBuffer)
                    } else {
                        Ok((RecordModel::A { domain, addr: u32_of(buf, d), ttl }, d + 4))
                    }
                } else if t == 28 {
                    if d + 16 > buf.len() {
                        Err(DnsError::EndOfBuffer)
                    } else {
                        Ok((RecordModel::AAAA { domain, addr: u128_of(buf, d), ttl }, d + 16))
                    }
                } else if t == 2 || t == 5 {
                    match name_at(buf, d, 0) {
                        Err(e) => Err(e),
                        Ok(host) => Ok((
                            if t == 2 {
                                RecordModel::NS { domain, host, ttl }
                            } else {
                                RecordModel::CNAME { domain, host, ttl }
                            },
                            name_end(buf, d),
                        )),
                    }
                } else if t == 15 {
                    if d + 2 > buf.len() {
                        Err(DnsError::EndOfBuffer)
                    } else {
                        match name_at(buf, d + 2, 0) {
                            Err(e) => Err(e),
                            Ok(host) => Ok((
                                RecordModel::MX {
                                    domain,
                                    priority: u16_of(buf[d], buf[d + 1]),
                                    host,
                                    ttl,
                                },
                                name_end(buf, d + 2),
                            )),
                        }
                    }
                } else if d + len > buf.len() {
                    Err(DnsError::EndOfBuffer)
                } else {
                    Ok((RecordModel::UNKNOWN { domain, qtype: t, data_len: len, ttl }, d + len))
                }
            }
        },
    }
}

/// Record data on the wire. An `UNKNOWN` record's data is written as that
/// many zero bytes.
pub open spec fn rdata_bytes(r: RecordModel) -> Seq<u8> {
    match r {
        RecordModel::UNKNOWN { data_len, .. } => Seq::new(data_len as nat, |i: int| 0u8),
        RecordModel::A { addr, .. } => be32(addr),
        RecordModel::NS { host, .. } => encode_name(host),
        RecordModel::CNAME { host, .. } => encode_name(host),
        RecordModel::MX { priority, host, .. } => be16(priority) + encode_name(host),
        RecordModel::AAAA { addr, .. } => be128(addr),
    }
}

/// Wire form of a record: owner, type, class IN, TTL, data length, data.
#[verifier::opaque]
pub open spec fn record_bytes(r: RecordModel) -> Seq<u8> {
    encode_name(r.domain()) + be16(r.type_num()) + be16(1) + be32(r.ttl()) + be16(
        rdata_bytes(r).len() as u16,
    ) + rdata_bytes(r)
}

pub proof fn lemma_record_bytes_len(r: RecordModel)
    ensures
        record_bytes(r).len() >= 1,
{
    reveal(record_bytes);
}

impl RecordModel {
    pub open spec fn type_num(self) -> u16 {
        match self {
            RecordModel::UNKNOWN { qtype, .. } => qtype,
            RecordModel::A { .. } => 1,
            RecordModel::NS { .. } => 2,
            RecordModel::CNAME { .. } => 5,
            RecordModel::MX { .. } => 15,
            RecordModel::AAAA { .. } => 28,
        }
    }

    pub open spec fn ttl(self) -> u32 {
        match self {
            RecordModel::UNKNOWN { ttl, .. } => ttl,
            RecordModel::A { ttl, .. } => ttl,
            RecordModel::NS { ttl, .. } => ttl,
            RecordModel::CNAME { ttl, .. } => ttl,
            RecordModel::MX { ttl, .. } => ttl,
            RecordModel::AAAA { ttl, .. } => ttl,
        }
    }

    pub open spec fn domain(self) -> Seq<char> {
        match self {
            RecordModel::UNKNOWN { domain, .. } => domain,
            RecordModel::A { domain, .. } => domain,
            RecordModel::NS { domain, .. } => domain,
            RecordModel::CNAME { domain, .. } => domain,
            RecordModel::MX { domain, .. } => domain,
            RecordModel::AAAA { domain, .. } => domain,
        }
    }

    /// Names in the record that `write` accepts.
    pub open spec fn names_ok(self) -> bool {
        name_ok(self.domain()) && match self {
            RecordModel::NS { host, .. } => name_ok(host),
            RecordModel::CNAME { host, .. } => name_ok(host),
            RecordModel::MX { host, .. } => name_ok(host),
            _ => true,
        }
    }
}

impl DnsRecord {
    pub open spec fn model(&self) -> RecordModel {
        match self {
            DnsRecord::UNKNOWN { domain, qtype, data_len, ttl } => RecordModel::UNKNOWN {
                domain: domain@,
                qtype: *qtype,
                data_len: *data_len,
                ttl: *ttl,
            },
            DnsRecord::A { domain, addr, ttl } => RecordModel::A {
                domain: domain@,
                addr: *addr,
                ttl: *ttl,
            },
            DnsRecord::NS { domain, host, ttl } => RecordModel::NS {
                domain: domain@,
                host: host@,
                ttl: *ttl,
            },
            DnsRecord::CNAME { domain, host, ttl } => RecordModel::CNAME {
                domain: domain@,
                host: host@,
                ttl: *ttl,
            },
            DnsRecord::MX { domain, priority, host, ttl } => RecordModel::MX {
                domain: domain@,
                priority: *priority,
                host: host@,
                ttl: *ttl,
            },
            DnsRecord::AAAA { domain, addr, ttl } => RecordModel::AAAA {
                domain: domain@,
                addr: *addr,
                ttl: *ttl,
            },
        }
    }

    /// A copy of the record.
    pub fn copy(&self) -> (r: DnsRecord)
        ensures
            r.model() == self.model(),
    {
        match self {
            DnsRecord::UNKNOWN { domain, qtype, data_len, ttl } => DnsRecord::UNKNOWN {
                domain: domain.clone(),
                qtype: *qtype,
                data_len: *data_len,
                ttl: *ttl,
            },
            DnsRecord::A { domain, addr, ttl } => DnsRecord::A {
                domain: domain.clone(),
                addr: *addr,
                ttl: *ttl,
            },
            DnsRecord::NS { domain, host, ttl } => DnsRecord::NS {
                domain: domain.clone(),
                host: host.clone(),
                ttl: *ttl,
            },
            DnsRecord::CNAME { domain, host, ttl } => DnsRecord::CNAME {
                domain: domain.clone(),
                host: host.clone(),
                ttl: *ttl,
            },
            DnsRecord::MX { domain, priority, host, ttl } => DnsRecord::MX {
                domain: domain.clone(),
                priority: *priority,
                host: host.clone(),
                ttl: *ttl,
            },
            DnsRecord::AAAA { domain, addr, ttl } => DnsRecord::AAAA {
                domain: domain.clone(),
                addr: *addr,
                ttl: *ttl,
            },
        }
    }

    pub open spec fn spec_ttl(&self) -> u32 {
        match self {
            DnsRecord::UNKNOWN { ttl, .. } => *ttl,
            DnsRecord::A { ttl, .. } => *ttl,
            DnsRecord::NS { ttl, .. } => *ttl,
            DnsRecord::CNAME { ttl, .. } => *ttl,
            DnsRecord::MX { ttl, .. } => *ttl,
            DnsRecord::AAAA { ttl, .. } => *ttl,
        }
    }

    pub fn ttl(&self) -> (r: u32)
        ensures
            r == self.spec_ttl(),
    {
        match self {
            DnsRecord::UNKNOWN { ttl, .. } => *ttl,
            DnsRecord::A { ttl, .. } => *ttl,
            DnsRecord::NS { ttl, .. } => *ttl,
            DnsRecord::CNAME { ttl, .. } => *ttl,
            DnsRecord::MX { ttl, .. } => *ttl,
            DnsRecord::AAAA { ttl, .. } => *ttl,
        }
    }

    /// Read a record at the cursor.
    pub fn read(buffer: &mut BytePacketBuffer) -> (r: Result<DnsRecord, DnsError>)
        requires
            old(buffer).wf(),
        ensures
            final(buffer).wf(),
            final(buffer).buf@ == old(buffer).buf@,
            match record_at(old(buffer).buf@, old(buffer).pos as int) {
                Ok((m, e)) => r matches Ok(rec) && rec.model() == m && final(buffer).pos == e,
                Err(e) => r == Err::<DnsRecord, DnsError>(e),
            },
    {
        let domain = buffer.read_qname()?;
        let t = buffer.read_u16()?;
        let _class = buffer.read_u16()?;
        let ttl = buffer.read_u32()?;
        let data_len = buffer.read_u16()?;
        if t == 1 {
            let addr = buffer.read_u32()?;
            Ok(DnsRecord::A { domain, addr, ttl })
        } else if t == 28 {
            if buffer.pos > BUF_SIZE - 16 {
                return Err(DnsError::EndOfBuffer);
            }
            let a = buffer.read_u32()?;
            let b = buffer.read_u32()?;
            let c = buffer.read_u32()?;
            let d = buffer.read_u32()?;
            let addr: u128 = (a as u128) * 0x1_0000_0000_0000_0000_0000_0000 + (b as u128)
                * 0x1_0000_0000_0000_0000 + (c as u128) * 0x1_0000_0000 + (d as u128);
            Ok(DnsRecord::AAAA { domain, addr, ttl })
        } else if t == 2 {
            let host = buffer.read_qname()?;
            Ok(DnsRecord::NS { domain, host, ttl })
        } else if t == 5 {
            let host = buffer.read_qname()?;
            Ok(DnsRecord::CNAME { domain, host, ttl })
        } else if t == 15 {
            let priority = buffer.read_u16()?;
            let host = buffer.read_qname()?;
            Ok(DnsRecord::MX { domain, priority, host, ttl })
        } else {
            buffer.step(data_len as usize)?;
            Ok(DnsRecord::UNKNOWN { domain, qtype: t, data_len, ttl })
        }
    }

    /// Length of the wire form of this record, for valid names.
    pub open spec fn spec_wire_len(&self) -> int {
        record_bytes(self.model()).len() as int
    }

    /// Write the record at the cursor, names uncompressed.
    pub fn write(&self, buffer: &mut BytePacketBuffer) -> (r: Result<(), DnsError>)
        requires
            old(buffer).wf(),
        ensures
            final(buffer).wf(),
            !self.model().names_ok() ==> r == Err::<(), DnsError>(DnsError::MalformedPacket),
            self.model().names_ok() && old(buffer).pos + self.spec_wire_len() > BUF_SIZE ==> r
                == Err::<(), DnsError>(DnsError::EndOfBuffer),
            self.model().names_ok() && old(buffer).pos + self.spec_wire_len() <= BUF_SIZE ==> r is Ok
                && final(buffer).pos == old(buffer).pos + self.spec_wire_len()
                && final(buffer).buf@ == splice(
                old(buffer).buf@,
                old(buffer).pos as int,
                record_bytes(self.model()),
            ),
    {
        let ghost b0 = buffer.buf@;
        let ghost base = buffer.pos as int;
        let ghost m = self.model();
        if !self.names_ok() {
            return Err(DnsError::MalformedPacket);
        }
        let domain = self.domain_str();
        let dl = name_len_exec(domain);
        let data_len = self.rdata_len();
        proof {
            lemma_name_len(m.domain());
        }
        proof {
            reveal(record_bytes);
        }
        if dl + 10 + data_len > BUF_SIZE - buffer.pos {
            return Err(DnsError::EndOfBuffer);
        }
        buffer.write_qname(domain)?;
        let ghost a1 = encode_name(m.domain());
        let ghost hd = be16(m.type_num()) + be16(1) + be32(m.ttl()) + be16(data_len as u16);
        write_rr_head(buffer, self.type_num(), self.ttl(), data_len as u16);
        proof {
            lemma_splice_concat(b0, base, a1, hd);
        }
        self.write_rdata(buffer);
        proof {
            lemma_splice_concat(b0, base, a1 + hd, rdata_bytes(m));
            reveal(record_bytes);
            assert(a1 + hd + rdata_bytes(m) =~= record_bytes(m));
        }
        Ok(())
    }

    /// Length of the record's wire form.
    pub fn wire_len(&self) -> (r: usize)
        requires
            self.model().names_ok(),
        ensures
            r == record_bytes(self.model()).len(),
            r <= 66000,
    {
        proof {
            lemma_name_len(self.model().domain());
            reveal(record_bytes);
        }
        name_len_exec(self.domain_str()) + 10 + self.rdata_len()
    }

    fn type_num(&self) -> (r: u16)
        ensures
            r == self.model().type_num(),
    {
        match self {
            DnsRecord::UNKNOWN { qtype, .. } => *qtype,
            DnsRecord::A { .. } => 1,
            DnsRecord::NS { .. } => 2,
            DnsRecord::CNAME { .. } => 5,
            DnsRecord::MX { .. } => 15,
            DnsRecord::AAAA { .. } => 28,
        }
    }

    pub fn names_ok(&self) -> (r: bool)
        ensures
            r == self.model().names_ok(),
    {
        if !crate::name::name_ok_exec(self.domain_str()) {
            return false;
        }
        match self {
            DnsRecord::NS { host, .. } => crate::name::name_ok_exec(host.as_str()),
            DnsRecord::CNAME { host, .. } => crate::name::name_ok_exec(host.as_str()),
            DnsRecord::MX { host, .. } => crate::name::name_ok_exec(host.as_str()),
            _ => true,
        }
    }

    fn rdata_len(&self) -> (r: usize)
        requires
            self.model().names_ok(),
        ensures
            r == rdata_bytes(self.model()).len(),
            r <= 65535,
    {
        match self {
            DnsRecord::UNKNOWN { data_len, .. } => *data_len as usize,
            DnsRecord::A { .. } => 4,
            DnsRecord::AAAA { .. } => 16,
            DnsRecord::NS { host, .. } => {
                proof { lemma_name_len(host@); }
                name_len_exec(host.as_str())
            },
            DnsRecord::CNAME { host, .. } => {
                proof { lemma_name_len(host@); }
                name_len_exec(host.as_str())
            },
            DnsRecord::MX { host, .. } => {
                proof { lemma_name_len(host@); }
                name_len_exec(host.as_str()) + 2
            },
        }
    }

    fn write_rdata(&self, buffer: &mut BytePacketBuffer)
        requires
            old(buffer).wf(),
            self.model().names_ok(),
            old(buffer).pos + rdata_bytes(self.model()).len() <= BUF_SIZE,
        ensures
            final(buffer).wf(),
            final(buffer).pos == old(buffer).pos + rdata_bytes(self.model()).len(),
            final(buffer).buf@ == splice(
                old(buffer).buf@,
                old(buffer).pos as int,
                rdata_bytes(self.model()),
            ),
    {
        let ghost b0 = buffer.buf@;
        let ghost base = buffer.pos as int;
        match self {
            DnsRecord::A { addr, .. } => {
                let _ = buffer.write_u32(*addr);
            },
            DnsRecord::AAAA { addr, .. } => {
                write_u128(buffer, *addr);
            },
            DnsRecord::NS { host, .. } => {
                proof { lemma_name_len(host@); }
                let _ = buffer.write_qname(host.as_str());
            },
            DnsRecord::CNAME { host, .. } => {
                proof { lemma_name_len(host@); }
                let _ = buffer.write_qname(host.as_str());
            },
            DnsRecord::MX { priority, host, .. } => {
                proof { lemma_name_len(host@); }
                let _ = buffer.write_u16(*priority);
                let _ = buffer.write_qname(host.as_str());
                proof { lemma_splice_concat(b0, base, be16(*priority), encode_name(host@)); }
            },
            DnsRecord::UNKNOWN { data_len, .. } => {
                let n = *data_len as usize;
                let mut i: usize = 0;
                assert(splice(b0, base, Seq::new(0, |k: int| 0u8)) =~= b0);
                while i < n
                    invariant
                        buffer.wf(),
                        0 <= base,
                        b0.len() == BUF_SIZE,
                        i <= n,
                        buffer.pos == base + i,
                        base + n <= BUF_SIZE,
                        buffer.buf@ == splice(b0, base, Seq::new(i as nat, |k: int| 0u8)),
                    decreases n - i,
                {
                    let _ = buffer.write_u8(0);
                    proof {
                        lemma_splice_concat(b0, base, Seq::new(i as nat, |k: int| 0u8), seq![0u8]);
                        assert(Seq::new(i as nat, |k: int| 0u8) + seq![0u8] =~= Seq::new((i + 1) as nat, |k: int| 0u8));
                    }
                    i = i + 1;
                }
            },
        }
    }

    pub fn domain_str(&self) -> (r: &str)
        ensures
            r@ == self.model().domain(),
    {
        match self {
            DnsRecord::UNKNOWN { domain, .. } => domain.as_str(),
            DnsRecord::A { domain, .. } => domain.as_str(),
            DnsRecord::NS { domain, .. } => domain.as_str(),
            DnsRecord::CNAME { domain, .. } => domain.as_str(),
            DnsRecord::MX { domain, .. } => domain.as_str(),
            DnsRecord::AAAA { domain, .. } => domain.as_str(),
        }
    }
}

/// Length of a question's wire form.
pub fn question_len(q: &DnsQuestion) -> (r: usize)
    requires
        name_ok(q.name@),
    ensures
        r == question_bytes(q.name@, q.qtype).len(),
        r <= 259,
{
    proof {
        lemma_name_len(q.name@);
    }
    name_len_exec(q.name.as_str()) + 4
}

/// Length of the wire form of a name `write_qname` accepts.
fn name_len_exec(s: &str) -> (r: usize)
    requires
        name_ok(s@),
    ensures
        r == name_len(s@),
{
    let n = chars_of(s).len();
    if n == 0 {
        1
    } else {
        n + 2
    }
}

fn write_u128(buffer: &mut BytePacketBuffer, v: u128)
    requires
        old(buffer).wf(),
        old(buffer).pos + 16 <= BUF_SIZE,
    ensures
        final(buffer).wf(),
        final(buffer).pos == old(buffer).pos + 16,
        final(buffer).buf@ == splice(old(buffer).buf@, old(buffer).pos as int, be128(v)),
{
    let ghost b0 = buffer.buf@;
    let ghost base = buffer.pos as int;
    let x1 = (v / 0x1_0000_0000_0000_0000_0000_0000) as u32;
    let x2 = ((v / 0x1_0000_0000_0000_0000) % 0x1_0000_0000) as u32;
    let x3 = ((v / 0x1_0000_0000) % 0x1_0000_0000) as u32;
    let x4 = (v % 0x1_0000_0000) as u32;
    let _ = buffer.write_u32(x1);
    let _ = buffer.write_u32(x2);
    proof { lemma_splice_concat(b0, base, be32(x1), be32(x2)); }
    let _ = buffer.write_u32(x3);
    proof { lemma_splice_concat(b0, base, be32(x1) + be32(x2), be32(x3)); }
    let _ = buffer.write_u32(x4);
    proof { lemma_splice_concat(b0, base, be32(x1) + be32(x2) + be32(x3), be32(x4)); }
}

/// Write type, class IN, TTL and data length.
fn write_rr_head(buffer: &mut BytePacketBuffer, t: u16, ttl: u32, len: u16)
    requires
        old(buffer).wf(),
        old(buffer).pos + 10 <= BUF_SIZE,
    ensures
        final(buffer).wf(),
        final(buffer).pos == old(buffer).pos + 10,
        final(buffer).buf@ == splice(
            old(buffer).buf@,
            old(buffer).pos as int,
            be16(t) + be16(1) + be32(ttl) + be16(len),
        ),
{
    let ghost b0 = buffer.buf@;
    let ghost base = buffer.pos as int;
    let _ = buffer.write_u16(t);
    let _ = buffer.write_u16(1);
    proof { lemma_splice_concat(b0, base, be16(t), be16(1)); }
    let _ = buffer.write_u32(ttl);
    proof { lemma_splice_concat(b0, base, be16(t) + be16(1), be32(ttl)); }
    let _ = buffer.write_u16(len);
    proof { lemma_splice_concat(b0, base, be16(t) + be16(1) + be32(ttl), be16(len)); }
}


} // verus!

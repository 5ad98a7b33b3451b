//! Reading back what was written: the codec's round trip.
use vstd::prelude::*;
use vstd::arithmetic::div_mod::{lemma_div_denominator, lemma_fundamental_div_mod};
use crate::buffer::{be16, be32, u16_of, u32_of};
use crate::header::{lemma_header_round_trip, header_at, header_bytes, QueryType};
use crate::name::{encode_name, lemma_name_round_trip, name_at, name_end, name_ok};
use crate::packet::{
    concat_map, packet_at, packet_bytes, packet_names_ok, questions_at, questions_bytes,
    records_at, records_bytes, PacketModel,
};
use crate::record::{
    be128, lemma_name_len, name_len, question_at, question_bytes, rdata_bytes, record_at,
    record_bytes, u128_of, RecordModel,
};

verus! {

/// `b` holds `x` at `p`.
pub open spec fn holds_at(b: Seq<u8>, p: int, x: Seq<u8>) -> bool {
    0 <= p && p + x.len() <= b.len() && b.subrange(p, p + x.len()) == x
}

proof fn lemma_holds_split(b: Seq<u8>, p: int, x: Seq<u8>, y: Seq<u8>)
    requires
        holds_at(b, p, x + y),
    ensures
        holds_at(b, p, x),
        holds_at(b, p + x.len(), y),
{
    let w = b.subrange(p, p + x.len() + y.len());
    assert(w == x + y);
    assert(b.subrange(p, p + x.len()) =~= w.subrange(0, x.len() as int));
    assert((x + y).subrange(0, x.len() as int) =~= x);
    assert(b.subrange(p + x.len(), p + x.len() + y.len()) =~= w.subrange(
        x.len() as int,
        w.len() as int,
    ));
    assert((x + y).subrange(x.len() as int, (x + y).len() as int) =~= y);
}

proof fn lemma_u16_at(b: Seq<u8>, p: int, v: u16)
    requires
        holds_at(b, p, be16(v)),
    ensures
        u16_of(b[p], b[p + 1]) == v,
{
    assert(b[p] == b.subrange(p, p + 2)[0]);
    assert(b[p + 1] == b.subrange(p, p + 2)[1]);
}

proof fn lemma_u32_at(b: Seq<u8>, p: int, v: u32)
    requires
        holds_at(b, p, be32(v)),
    ensures
        u32_of(b, p) == v,
{
    lemma_holds_split(b, p, be16((v / 65536) as u16), be16((v % 65536) as u16));
    lemma_u16_at(b, p, (v / 65536) as u16);
    lemma_u16_at(b, p + 2, (v % 65536) as u16);
}

proof fn lemma_u128_parts(v: u128)
    ensures
        ((v / 0x1_0000_0000_0000_0000_0000_0000) as u32) as int * 0x1_0000_0000_0000_0000_0000_0000
            + (((v / 0x1_0000_0000_0000_0000) % 0x1_0000_0000) as u32) as int
            * 0x1_0000_0000_0000_0000 + (((v / 0x1_0000_0000) % 0x1_0000_0000) as u32) as int
            * 0x1_0000_0000 + ((v % 0x1_0000_0000) as u32) as int == v,
{
    let k: int = 0x1_0000_0000;
    let x = v as int;
    lemma_fundamental_div_mod(x, k);
    lemma_fundamental_div_mod(x / k, k);
    lemma_fundamental_div_mod((x / k) / k, k);
    lemma_div_denominator(x, k, k);
    lemma_div_denominator(x / k, k, k);
    lemma_div_denominator(x, k * k, k);
    assert(((x / k) / k) / k == x / (k * k * k));
    assert(x / (k * k * k) < k) by (nonlinear_arith)
        requires
            0 <= x < k * k * k * k,
            k == 0x1_0000_0000,
    ;
    assert(x == ((x / (k * k * k)) * k + (x / (k * k)) % k) * k * k + ((x / k) % k) * k + x % k)
        by (nonlinear_arith)
        requires
            x / k == k * ((x / k) / k) + (x / k) % k,
            x == k * (x / k) + x % k,
            (x / k) / k == k * (((x / k) / k) / k) + ((x / k) / k) % k,
            ((x / k) / k) / k == x / (k * k * k),
            (x / k) / k == x / (k * k),
    ;
}

proof fn lemma_u128_at(b: Seq<u8>, p: int, v: u128)
    requires
        holds_at(b, p, be128(v)),
    ensures
        u128_of(b, p) == v,
{
    let a = be32((v / 0x1_0000_0000_0000_0000_0000_0000) as u32);
    let c = be32(((v / 0x1_0000_0000_0000_0000) % 0x1_0000_0000) as u32);
    let d = be32(((v / 0x1_0000_0000) % 0x1_0000_0000) as u32);
    let e = be32((v % 0x1_0000_0000) as u32);
    lemma_holds_split(b, p, a + c + d, e);
    lemma_holds_split(b, p, a + c, d);
    lemma_holds_split(b, p, a, c);
    lemma_u32_at(b, p, (v / 0x1_0000_0000_0000_0000_0000_0000) as u32);
    lemma_u32_at(b, p + 4, ((v / 0x1_0000_0000_0000_0000) % 0x1_0000_0000) as u32);
    lemma_u32_at(b, p + 8, ((v / 0x1_0000_0000) % 0x1_0000_0000) as u32);
    lemma_u32_at(b, p + 12, (v % 0x1_0000_0000) as u32);
    lemma_u128_parts(v);
}

/// A question read back from its bytes is the question written.
pub proof fn lemma_question_round_trip(b: Seq<u8>, p: int, name: Seq<char>, qtype: QueryType)
    requires
        name_ok(name),
        qtype.wf(),
        holds_at(b, p, question_bytes(name, qtype)),
    ensures
        question_at(b, p) == Ok::<(Seq<char>, QueryType, int), crate::buffer::DnsError>(
            (name, qtype, p + question_bytes(name, qtype).len()),
        ),
{
    let n = encode_name(name);
    lemma_holds_split(b, p, n + be16(qtype.num()), be16(1));
    lemma_holds_split(b, p, n, be16(qtype.num()));
    lemma_name_round_trip(b, p, name);
    lemma_u16_at(b, p + n.len(), qtype.num());
}

impl RecordModel {
    /// An `UNKNOWN` record does not carry the number of a type the codec decodes.
    pub open spec fn wf(self) -> bool {
        self matches RecordModel::UNKNOWN { qtype, .. } ==> qtype != 1 && qtype != 2 && qtype != 5
            && qtype != 15 && qtype != 28
    }
}

/// A record read back from its bytes is the record written.
pub proof fn lemma_record_round_trip(b: Seq<u8>, p: int, r: RecordModel)
    requires
        r.names_ok(),
        r.wf(),
        holds_at(b, p, record_bytes(r)),
    ensures
        record_at(b, p) == Ok::<(RecordModel, int), crate::buffer::DnsError>(
            (r, p + record_bytes(r).len()),
        ),
{
    reveal(record_bytes);
    let n = encode_name(r.domain());
    let t = be16(r.type_num());
    let rd = rdata_bytes(r);
    let l = be16(rd.len() as u16);
    lemma_holds_split(b, p, n + t + be16(1) + be32(r.ttl()) + l, rd);
    lemma_holds_split(b, p, n + t + be16(1) + be32(r.ttl()), l);
    lemma_holds_split(b, p, n + t + be16(1), be32(r.ttl()));
    lemma_holds_split(b, p, n + t, be16(1));
    lemma_holds_split(b, p, n, t);
    lemma_name_round_trip(b, p, r.domain());
    let q = p + n.len();
    lemma_u16_at(b, q, r.type_num());
    lemma_u32_at(b, q + 4, r.ttl());
    lemma_name_len(r.domain());
    let d = q + 10;
    match r {
        RecordModel::A { addr, .. } => {
            lemma_u16_at(b, q + 8, 4);
            lemma_u32_at(b, d, addr);
        },
        RecordModel::AAAA { addr, .. } => {
            lemma_u16_at(b, q + 8, 16);
            lemma_u128_at(b, d, addr);
        },
        RecordModel::NS { host, .. } => {
            lemma_name_len(host);
            lemma_u16_at(b, q + 8, name_len(host) as u16);
            lemma_name_round_trip(b, d, host);
        },
        RecordModel::CNAME { host, .. } => {
            lemma_name_len(host);
            lemma_u16_at(b, q + 8, name_len(host) as u16);
            lemma_name_round_trip(b, d, host);
        },
        RecordModel::MX { priority, host, .. } => {
            lemma_name_len(host);
            lemma_u16_at(b, q + 8, (name_len(host) + 2) as u16);
            lemma_holds_split(b, d, be16(priority), encode_name(host));
            lemma_u16_at(b, d, priority);
            lemma_name_round_trip(b, d + 2, host);
        },
        RecordModel::UNKNOWN { data_len, .. } => {
            lemma_u16_at(b, q + 8, data_len);
        },
    }
}


proof fn lemma_questions_round_trip(b: Seq<u8>, p: int, qs: Seq<(Seq<char>, QueryType)>)
    requires
        forall|i: int| 0 <= i < qs.len() ==> name_ok(#[trigger] qs[i].0) && qs[i].1.wf(),
        holds_at(b, p, questions_bytes(qs)),
    ensures
        questions_at(b, p, qs.len()) == Ok::<(Seq<(Seq<char>, QueryType)>, int), crate::buffer::DnsError>(
            (qs, p + questions_bytes(qs).len()),
        ),
    decreases qs.len(),
{
    if qs.len() == 0 {
        assert(qs =~= Seq::<(Seq<char>, QueryType)>::empty());
    } else {
        let rest = qs.drop_first();
        let head = question_bytes(qs[0].0, qs[0].1);
        assert(questions_bytes(qs) == head + questions_bytes(rest));
        lemma_holds_split(b, p, head, questions_bytes(rest));
        assert(name_ok(qs[0].0) && qs[0].1.wf());
        lemma_question_round_trip(b, p, qs[0].0, qs[0].1);
        assert forall|i: int| 0 <= i < rest.len() implies name_ok(#[trigger] rest[i].0) && rest[i].1.wf() by {
            assert(rest[i] == qs[i + 1]);
        }
        lemma_questions_round_trip(b, p + head.len(), rest);
        assert(seq![(qs[0].0, qs[0].1)] + rest =~= qs);
    }
}

proof fn lemma_records_round_trip(b: Seq<u8>, p: int, rs: Seq<RecordModel>)
    requires
        forall|i: int| 0 <= i < rs.len() ==> (#[trigger] rs[i]).names_ok() && rs[i].wf(),
        holds_at(b, p, records_bytes(rs)),
    ensures
        records_at(b, p, rs.len()) == Ok::<(Seq<RecordModel>, int), crate::buffer::DnsError>(
            (rs, p + records_bytes(rs).len()),
        ),
    decreases rs.len(),
{
    if rs.len() == 0 {
        assert(rs =~= Seq::<RecordModel>::empty());
    } else {
        let rest = rs.drop_first();
        let head = record_bytes(rs[0]);
        assert(records_bytes(rs) == head + records_bytes(rest));
        lemma_holds_split(b, p, head, records_bytes(rest));
        assert(rs[0].names_ok() && rs[0].wf());
        lemma_record_round_trip(b, p, rs[0]);
        assert forall|i: int| 0 <= i < rest.len() implies (#[trigger] rest[i]).names_ok() && rest[i].wf() by {
            assert(rest[i] == rs[i + 1]);
        }
        lemma_records_round_trip(b, p + head.len(), rest);
        assert(seq![rs[0]] + rest =~= rs);
    }
}

/// A packet the codec can write and read back: valid names, a 4-bit opcode,
/// header counts that match the sections, and types that keep their variant.
pub open spec fn packet_wf(m: PacketModel) -> bool {
    &&& m.header.wf()
    &&& packet_names_ok(m)
    &&& m.header.questions == m.questions.len()
    &&& m.header.answers == m.answers.len()
    &&& m.header.authoritative_entries == m.authorities.len()
    &&& m.header.resource_entries == m.resources.len()
    &&& forall|i: int| 0 <= i < m.questions.len() ==> (#[trigger] m.questions[i]).1.wf()
    &&& forall|i: int| 0 <= i < m.answers.len() ==> (#[trigger] m.answers[i]).wf()
    &&& forall|i: int| 0 <= i < m.authorities.len() ==> (#[trigger] m.authorities[i]).wf()
    &&& forall|i: int| 0 <= i < m.resources.len() ==> (#[trigger] m.resources[i]).wf()
}

/// Parsing the bytes a well-formed packet is written as gives that packet
/// back (names come back uncompressed, as they were written).
pub proof fn lemma_packet_round_trip(m: PacketModel, b: Seq<u8>)
    requires
        packet_wf(m),
        holds_at(b, 0, packet_bytes(m)),
    ensures
        packet_at(b, 0) == Ok::<PacketModel, crate::buffer::DnsError>(m),
{
    reveal(packet_bytes);
    let h = header_bytes(m.header);
    let q = questions_bytes(m.questions);
    let a = records_bytes(m.answers);
    let u = records_bytes(m.authorities);
    let r = records_bytes(m.resources);
    lemma_holds_split(b, 0, h + q + a + u, r);
    lemma_holds_split(b, 0, h + q + a, u);
    lemma_holds_split(b, 0, h + q, a);
    lemma_holds_split(b, 0, h, q);
    lemma_header_round_trip(m.header, b, 0);
    lemma_questions_round_trip(b, 12, m.questions);
    lemma_records_round_trip(b, 12 + q.len() as int, m.answers);
    lemma_records_round_trip(b, 12 + q.len() + a.len() as int, m.authorities);
    lemma_records_round_trip(b, 12 + q.len() + a.len() + u.len() as int, m.resources);
}

} // verus!

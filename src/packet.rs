//! Whole DNS packets: header and four sections.
use vstd::prelude::*;
use crate::buffer::{lemma_splice_concat, splice, BytePacketBuffer, DnsError, BUF_SIZE};
use crate::header::{header_at, header_bytes, DnsHeader, QueryType, ResultCode};
use crate::name::name_ok;
use crate::record::{
    question_at, question_bytes, record_at, record_bytes, DnsQuestion, DnsRecord, RecordModel,
};

verus! {

#[derive(Debug, Clone, PartialEq, Eq)]
pub struct DnsPacket {
    pub header: DnsHeader,
    pub questions: Vec<DnsQuestion>,
    pub answers: Vec<DnsRecord>,
    pub authorities: Vec<DnsRecord>,
    pub resources: Vec<DnsRecord>,
}

/// A packet with its names as character sequences.
pub struct PacketModel {
    pub header: DnsHeader,
    pub questions: Seq<(Seq<char>, QueryType)>,
    pub answers: Seq<RecordModel>,
    pub authorities: Seq<RecordModel>,
    pub resources: Seq<RecordModel>,
}

pub open spec fn questions_model(v: Seq<DnsQuestion>) -> Seq<(Seq<char>, QueryType)> {
    v.map_values(|q: DnsQuestion| (q.name@, q.qtype))
}

pub open spec fn records_model(v: Seq<DnsRecord>) -> Seq<RecordModel> {
    v.map_values(|r: DnsRecord| r.model())
}

/// `n` questions read from `p` on, and where the cursor ends.
pub open spec fn questions_at(buf: Seq<u8>, p: int, n: nat) -> Result<
    (Seq<(Seq<char>, QueryType)>, int),
    DnsError,
>
    decreases n,
{
    if n == 0 {
        Ok((Seq::empty(), p))
    } else {
        match question_at(buf, p) {
            Err(e) => Err(e),
            Ok((name, t, e)) => match questions_at(buf, e, (n - 1) as nat) {
                Err(x) => Err(x),
                Ok((rest, e2)) => Ok((seq![(name, t)] + rest, e2)),
            },
        }
    }
}

/// `n` records read from `p` on, and where the cursor ends.
pub open spec fn records_at(buf: Seq<u8>, p: int, n: nat) -> Result<(Seq<RecordModel>, int), DnsError>
    decreases n,
{
    if n == 0 {
        Ok((Seq::empty(), p))
    } else {
        match record_at(buf, p) {
            Err(e) => Err(e),
            Ok((r, e)) => match records_at(buf, e, (n - 1) as nat) {
                Err(x) => Err(x),
                Ok((rest, e2)) => Ok((seq![r] + rest, e2)),
            },
        }
    }
}

/// The packet read at `p`: the header, then as many entries in each section
/// as the header counts.
pub open spec fn packet_at(buf: Seq<u8>, p: int) -> Result<PacketModel, DnsError> {
    if p + 12 > buf.len() {
        Err(DnsError::EndOfBuffer)
    } else {
        let h = header_at(buf, p);
        match questions_at(buf, p + 12, h.questions as nat) {
            Err(e) => Err(e),
            Ok((qs, e1)) => match records_at(buf, e1, h.answers as nat) {
                Err(e) => Err(e),
                Ok((an, e2)) => match records_at(buf, e2, h.authoritative_entries as nat) {
                    Err(e) => Err(e),
                    Ok((au, e3)) => match records_at(buf, e3, h.resource_entries as nat) {
                        Err(e) => Err(e),
                        Ok((re, _e4)) => Ok(
                            PacketModel {
                                header: h,
                                questions: qs,
                                answers: an,
                                authorities: au,
                                resources: re,
                            },
                        ),
                    },
                },
            },
        }
    }
}

/// The concatenation of `f` over `s`.
pub open spec fn concat_map<A>(s: Seq<A>, f: spec_fn(A) -> Seq<u8>) -> Seq<u8>
    decreases s.len(),
{
    if s.len() == 0 {
        Seq::empty()
    } else {
        f(s[0]) + concat_map(s.drop_first(), f)
    }
}

/// Wire form of a question section.
pub open spec fn questions_bytes(qs: Seq<(Seq<char>, QueryType)>) -> Seq<u8> {
    concat_map(qs, |q: (Seq<char>, QueryType)| question_bytes(q.0, q.1))
}

/// Wire form of a record section.
pub open spec fn records_bytes(rs: Seq<RecordModel>) -> Seq<u8> {
    concat_map(rs, |r: RecordModel| record_bytes(r))
}

/// Wire form of a packet whose header counts match its sections.
#[verifier::opaque]
pub open spec fn packet_bytes(m: PacketModel) -> Seq<u8> {
    header_bytes(m.header) + questions_bytes(m.questions) + records_bytes(m.answers)
        + records_bytes(m.authorities) + records_bytes(m.resources)
}

/// Every name in the packet is one `write_qname` accepts.
pub open spec fn packet_names_ok(m: PacketModel) -> bool {
    &&& forall|i: int| 0 <= i < m.questions.len() ==> name_ok(#[trigger] m.questions[i].0)
    &&& forall|i: int| 0 <= i < m.answers.len() ==> (#[trigger] m.answers[i]).names_ok()
    &&& forall|i: int| 0 <= i < m.authorities.len() ==> (#[trigger] m.authorities[i]).names_ok()
    &&& forall|i: int| 0 <= i < m.resources.len() ==> (#[trigger] m.resources[i]).names_ok()
}

proof fn lemma_concat_map_push<A>(s: Seq<A>, x: A, f: spec_fn(A) -> Seq<u8>)
    ensures
        concat_map(s.push(x), f) == concat_map(s, f) + f(x),
    decreases s.len(),
{
    if s.len() == 0 {
        assert(s.push(x).drop_first() =~= Seq::<A>::empty());
        assert(concat_map(s.push(x).drop_first(), f) == Seq::<u8>::empty());
        assert(concat_map(s.push(x), f) =~= f(x));
    } else {
        assert(s.push(x).drop_first() =~= s.drop_first().push(x));
        lemma_concat_map_push(s.drop_first(), x, f);
        assert(concat_map(s.push(x), f) =~= concat_map(s, f) + f(x));
    }
}

proof fn lemma_concat_map_len<A>(s: Seq<A>, f: spec_fn(A) -> Seq<u8>)
    requires
        forall|x: A| #[trigger] f(x).len() >= 1,
    ensures
        concat_map(s, f).len() >= s.len(),
    decreases s.len(),
{
    if s.len() > 0 {
        lemma_concat_map_len(s.drop_first(), f);
        assert(f(s[0]).len() >= 1);
    }
}

proof fn lemma_questions_bytes_push(qs: Seq<(Seq<char>, QueryType)>, q: (Seq<char>, QueryType))
    ensures
        questions_bytes(qs.push(q)) == questions_bytes(qs) + question_bytes(q.0, q.1),
{
    lemma_concat_map_push(qs, q, |q: (Seq<char>, QueryType)| question_bytes(q.0, q.1));
}

proof fn lemma_records_bytes_push(rs: Seq<RecordModel>, r: RecordModel)
    ensures
        records_bytes(rs.push(r)) == records_bytes(rs) + record_bytes(r),
{
    lemma_concat_map_push(rs, r, |r: RecordModel| record_bytes(r));
}

/// A section never holds more entries than its wire form has bytes.
proof fn lemma_section_len(m: PacketModel)
    ensures
        packet_bytes(m).len() >= m.questions.len() + m.answers.len() + m.authorities.len()
            + m.resources.len(),
{
    reveal(packet_bytes);
    let fq = |q: (Seq<char>, QueryType)| question_bytes(q.0, q.1);
    let fr = |r: RecordModel| record_bytes(r);
    assert forall|x: (Seq<char>, QueryType)| #[trigger] fq(x).len() >= 1 by {}
    assert forall|x: RecordModel| #[trigger] fr(x).len() >= 1 by {
        crate::record::lemma_record_bytes_len(x);
    }
    lemma_concat_map_len(m.questions, fq);
    lemma_concat_map_len(m.answers, fr);
    lemma_concat_map_len(m.authorities, fr);
    lemma_concat_map_len(m.resources, fr);
}

/// A copy of each record.
pub fn copy_records(v: &Vec<DnsRecord>) -> (r: Vec<DnsRecord>)
    ensures
        records_model(r@) == records_model(v@),
{
    let mut out: Vec<DnsRecord> = Vec::new();
    let mut i: usize = 0;
    while i < v.len()
        invariant
            i <= v@.len(),
            out@.len() == i,
            records_model(out@) == records_model(v@.subrange(0, i as int)),
        decreases v@.len() - i,
    {
        let ghost ob = out@;
        out.push(v[i].copy());
        assert(out@.drop_last() =~= ob);
        assert forall|k: int| 0 <= k < i + 1 implies #[trigger] records_model(out@)[k] == records_model(v@.subrange(0, i + 1))[k] by {
            if k < i {
                assert(records_model(ob)[k] == records_model(v@.subrange(0, i as int))[k]);
                assert(out@[k] == ob[k]);
            }
        }
        assert(records_model(out@) =~= records_model(v@.subrange(0, i + 1)));
        i = i + 1;
    }
    assert(v@.subrange(0, v@.len() as int) =~= v@);
    out
}

/// Read `n` records at the cursor.
fn read_records(buffer: &mut BytePacketBuffer, n: u16) -> (r: Result<Vec<DnsRecord>, DnsError>)
    requires
        old(buffer).wf(),
    ensures
        final(buffer).wf(),
        final(buffer).buf@ == old(buffer).buf@,
        match records_at(old(buffer).buf@, old(buffer).pos as int, n as nat) {
            Ok((rs, e)) => r matches Ok(v) && records_model(v@) == rs && final(buffer).pos == e,
            Err(e) => r == Err::<Vec<DnsRecord>, DnsError>(e),
        },
{
    let ghost buf = buffer.buf@;
    let ghost base = buffer.pos as int;
    let mut out: Vec<DnsRecord> = Vec::new();
    let mut i: u16 = 0;
    while i < n
        invariant
            buffer.wf(),
            buffer.buf@ == buf,
            buf == old(buffer).buf@,
            base == old(buffer).pos,
            i <= n,
            records_at(buf, base, n as nat) == match records_at(buf, buffer.pos as int, (n - i) as nat) {
                Ok((rest, e)) => Ok((records_model(out@) + rest, e)),
                Err(x) => Err(x),
            },
        decreases n - i,
    {
        let ghost before = records_model(out@);
        let rec = DnsRecord::read(buffer)?;
        let ghost m = rec.model();
        out.push(rec);
        proof {
            assert(records_model(out@) =~= before.push(m));
            match records_at(buf, buffer.pos as int, (n - i - 1) as nat) {
                Ok((rest, e)) => {
                    assert(before + (seq![m] + rest) =~= before.push(m) + rest);
                },
                Err(x) => {},
            }
        }
        i = i + 1;
    }
    proof {
        assert(records_model(out@) + Seq::<RecordModel>::empty() =~= records_model(out@));
    }
    Ok(out)
}

/// Write records at the cursor; all names are valid and the bytes fit.
fn write_records(buffer: &mut BytePacketBuffer, v: &Vec<DnsRecord>)
    requires
        old(buffer).wf(),
        forall|i: int| 0 <= i < v@.len() ==> (#[trigger] v@[i]).model().names_ok(),
        old(buffer).pos + records_bytes(records_model(v@)).len() <= BUF_SIZE,
    ensures
        final(buffer).wf(),
        final(buffer).pos == old(buffer).pos + records_bytes(records_model(v@)).len(),
        final(buffer).buf@ == splice(
            old(buffer).buf@,
            old(buffer).pos as int,
            records_bytes(records_model(v@)),
        ),
{
    let ghost b0 = buffer.buf@;
    let ghost base = buffer.pos as int;
    let ghost all = records_model(v@);
    let mut i: usize = 0;
    assert(records_model(v@.subrange(0, 0)) =~= Seq::<RecordModel>::empty());
    assert(splice(b0, base, Seq::empty()) =~= b0);
    assert(v@.subrange(0, v@.len() as int) =~= v@);
    assert(records_bytes(Seq::<RecordModel>::empty()) =~= Seq::<u8>::empty());
    assert(records_bytes(all) =~= records_bytes(records_model(v@.subrange(0, 0)))
        + records_bytes(records_model(v@.subrange(0, v@.len() as int))));
    while i < v.len()
        invariant
            buffer.wf(),
            0 <= base,
            b0.len() == BUF_SIZE,
            i <= v@.len(),
            all == records_model(v@),
            forall|k: int| 0 <= k < v@.len() ==> (#[trigger] v@[k]).model().names_ok(),
            base + records_bytes(all).len() <= BUF_SIZE,
            records_bytes(all) == records_bytes(records_model(v@.subrange(0, i as int)))
                + records_bytes(records_model(v@.subrange(i as int, v@.len() as int))),
            buffer.pos == base + records_bytes(records_model(v@.subrange(0, i as int))).len(),
            buffer.buf@ == splice(b0, base, records_bytes(records_model(v@.subrange(0, i as int)))),
        decreases v@.len() - i,
    {
        let ghost done = records_model(v@.subrange(0, i as int));
        let ghost rest = records_model(v@.subrange(i as int, v@.len() as int));
        proof {
            assert(rest[0] == v@[i as int].model());
            assert(records_bytes(rest) == record_bytes(rest[0]) + records_bytes(rest.drop_first()));
            assert(rest.drop_first() =~= records_model(v@.subrange(i + 1, v@.len() as int)));
            assert(records_model(v@.subrange(0, i + 1)) =~= done.push(v@[i as int].model()));
            lemma_records_bytes_push(done, v@[i as int].model());
        }
        let _ = v[i].write(buffer);
        proof {
            lemma_splice_concat(b0, base, records_bytes(done), record_bytes(v@[i as int].model()));
        }
        i = i + 1;
    }
    assert(v@.subrange(0, v@.len() as int) =~= v@);
}

/// Write questions at the cursor; all names are valid and the bytes fit.
fn write_questions(buffer: &mut BytePacketBuffer, v: &Vec<DnsQuestion>)
    requires
        old(buffer).wf(),
        forall|i: int| 0 <= i < v@.len() ==> name_ok((#[trigger] v@[i]).name@),
        old(buffer).pos + questions_bytes(questions_model(v@)).len() <= BUF_SIZE,
    ensures
        final(buffer).wf(),
        final(buffer).pos == old(buffer).pos + questions_bytes(questions_model(v@)).len(),
        final(buffer).buf@ == splice(
            old(buffer).buf@,
            old(buffer).pos as int,
            questions_bytes(questions_model(v@)),
        ),
{
    let ghost b0 = buffer.buf@;
    let ghost base = buffer.pos as int;
    let ghost all = questions_model(v@);
    let mut i: usize = 0;
    assert(questions_model(v@.subrange(0, 0)) =~= Seq::<(Seq<char>, QueryType)>::empty());
    assert(splice(b0, base, Seq::empty()) =~= b0);
    assert(v@.subrange(0, v@.len() as int) =~= v@);
    assert(questions_bytes(Seq::<(Seq<char>, QueryType)>::empty()) =~= Seq::<u8>::empty());
    assert(questions_bytes(all) =~= questions_bytes(questions_model(v@.subrange(0, 0)))
        + questions_bytes(questions_model(v@.subrange(0, v@.len() as int))));
    while i < v.len()
        invariant
            buffer.wf(),
            0 <= base,
            b0.len() == BUF_SIZE,
            i <= v@.len(),
            all == questions_model(v@),
            forall|k: int| 0 <= k < v@.len() ==> name_ok((#[trigger] v@[k]).name@),
            base + questions_bytes(all).len() <= BUF_SIZE,
            questions_bytes(all) == questions_bytes(questions_model(v@.subrange(0, i as int)))
                + questions_bytes(questions_model(v@.subrange(i as int, v@.len() as int))),
            buffer.pos == base + questions_bytes(questions_model(v@.subrange(0, i as int))).len(),
            buffer.buf@ == splice(b0, base, questions_bytes(questions_model(v@.subrange(0, i as int)))),
        decreases v@.len() - i,
    {
        let ghost done = questions_model(v@.subrange(0, i as int));
        let ghost rest = questions_model(v@.subrange(i as int, v@.len() as int));
        let ghost qm = (v@[i as int].name@, v@[i as int].qtype);
        proof {
            assert(rest[0] == qm);
            assert(questions_bytes(rest) == question_bytes(qm.0, qm.1) + questions_bytes(rest.drop_first()));
            assert(rest.drop_first() =~= questions_model(v@.subrange(i + 1, v@.len() as int)));
            assert(questions_model(v@.subrange(0, i + 1)) =~= done.push(qm));
            lemma_questions_bytes_push(done, qm);
            crate::record::lemma_name_len(qm.0);
        }
        let _ = v[i].write(buffer);
        proof {
            lemma_splice_concat(b0, base, questions_bytes(done), question_bytes(qm.0, qm.1));
        }
        i = i + 1;
    }
    assert(v@.subrange(0, v@.len() as int) =~= v@);
}

proof fn lemma_names_ok_parts(p: &DnsPacket)
    requires
        packet_names_ok(p.model()),
    ensures
        forall|k: int| 0 <= k < p.questions@.len() ==> name_ok((#[trigger] p.questions@[k]).name@),
        forall|k: int| 0 <= k < p.answers@.len() ==> (#[trigger] p.answers@[k]).model().names_ok(),
        forall|k: int| 0 <= k < p.authorities@.len() ==> (#[trigger] p.authorities@[k]).model().names_ok(),
        forall|k: int| 0 <= k < p.resources@.len() ==> (#[trigger] p.resources@[k]).model().names_ok(),
{
    let m = p.model();
    assert forall|k: int| 0 <= k < p.questions@.len() implies name_ok((#[trigger] p.questions@[k]).name@) by {
        assert(m.questions[k].0 == p.questions@[k].name@);
    }
    assert forall|k: int| 0 <= k < p.answers@.len() implies (#[trigger] p.answers@[k]).model().names_ok() by {
        assert(m.answers[k] == p.answers@[k].model());
    }
    assert forall|k: int| 0 <= k < p.authorities@.len() implies (#[trigger] p.authorities@[k]).model().names_ok() by {
        assert(m.authorities[k] == p.authorities@[k].model());
    }
    assert forall|k: int| 0 <= k < p.resources@.len() implies (#[trigger] p.resources@[k]).model().names_ok() by {
        assert(m.resources[k] == p.resources@[k].model());
    }
}

proof fn lemma_packet_bytes(m: PacketModel)
    ensures
        packet_bytes(m) == header_bytes(m.header) + questions_bytes(m.questions) + records_bytes(
            m.answers,
        ) + records_bytes(m.authorities) + records_bytes(m.resources),
{
    reveal(packet_bytes);
}

fn write_head(buffer: &mut BytePacketBuffer, h: &DnsHeader, qs: &Vec<DnsQuestion>)
    requires
        old(buffer).wf(),
        h.wf(),
        forall|k: int| 0 <= k < qs@.len() ==> name_ok((#[trigger] qs@[k]).name@),
        old(buffer).pos + 12 + questions_bytes(questions_model(qs@)).len() <= BUF_SIZE,
    ensures
        final(buffer).wf(),
        final(buffer).pos == old(buffer).pos + 12 + questions_bytes(questions_model(qs@)).len(),
        final(buffer).buf@ == splice(
            old(buffer).buf@,
            old(buffer).pos as int,
            header_bytes(*h) + questions_bytes(questions_model(qs@)),
        ),
{
    let ghost b0 = buffer.buf@;
    let ghost base = buffer.pos as int;
    let _ = h.write(buffer);
    write_questions(buffer, qs);
    proof {
        lemma_splice_concat(b0, base, header_bytes(*h), questions_bytes(questions_model(qs@)));
    }
}

fn write_three(
    buffer: &mut BytePacketBuffer,
    a: &Vec<DnsRecord>,
    b: &Vec<DnsRecord>,
    c: &Vec<DnsRecord>,
)
    requires
        old(buffer).wf(),
        forall|k: int| 0 <= k < a@.len() ==> (#[trigger] a@[k]).model().names_ok(),
        forall|k: int| 0 <= k < b@.len() ==> (#[trigger] b@[k]).model().names_ok(),
        forall|k: int| 0 <= k < c@.len() ==> (#[trigger] c@[k]).model().names_ok(),
        old(buffer).pos + records_bytes(records_model(a@)).len() + records_bytes(
            records_model(b@),
        ).len() + records_bytes(records_model(c@)).len() <= BUF_SIZE,
    ensures
        final(buffer).wf(),
        final(buffer).pos == old(buffer).pos + records_bytes(records_model(a@)).len()
            + records_bytes(records_model(b@)).len() + records_bytes(records_model(c@)).len(),
        final(buffer).buf@ == splice(
            old(buffer).buf@,
            old(buffer).pos as int,
            records_bytes(records_model(a@)) + records_bytes(records_model(b@)) + records_bytes(
                records_model(c@),
            ),
        ),
{
    let ghost b0 = buffer.buf@;
    let ghost base = buffer.pos as int;
    let ghost x = records_bytes(records_model(a@));
    let ghost y = records_bytes(records_model(b@));
    let ghost z = records_bytes(records_model(c@));
    write_records(buffer, a);
    write_records(buffer, b);
    proof {
        lemma_splice_concat(b0, base, x, y);
    }
    write_records(buffer, c);
    proof {
        lemma_splice_concat(b0, base, x + y, z);
    }
}

/// Whether every record's names are valid, and the length of their wire form.
fn records_check(v: &Vec<DnsRecord>) -> (r: (bool, usize))
    ensures
        r.0 == (forall|i: int| 0 <= i < v@.len() ==> (#[trigger] v@[i]).model().names_ok()),
        r.0 ==> (r.1 == records_bytes(records_model(v@)).len() || (r.1 > BUF_SIZE
            && records_bytes(records_model(v@)).len() > BUF_SIZE)),
{
    let mut i: usize = 0;
    let mut total: usize = 0;
    while i < v.len()
        invariant
            i <= v@.len(),
            forall|k: int| 0 <= k < i ==> (#[trigger] v@[k]).model().names_ok(),
            total == records_bytes(records_model(v@.subrange(0, i as int))).len() || (total
                > BUF_SIZE && records_bytes(records_model(v@.subrange(0, i as int))).len()
                > BUF_SIZE),
            total <= BUF_SIZE + 66000,
        decreases v@.len() - i,
    {
        if !v[i].names_ok() {
            return (false, 0);
        }
        let l = v[i].wire_len();
        proof {
            assert(records_model(v@.subrange(0, i + 1)) =~= records_model(v@.subrange(0, i as int)).push(v@[i as int].model()));
            lemma_records_bytes_push(records_model(v@.subrange(0, i as int)), v@[i as int].model());
        }
        if total <= BUF_SIZE {
            total = total + l;
        }
        i = i + 1;
    }
    assert(v@.subrange(0, v@.len() as int) =~= v@);
    (true, total)
}

impl DnsPacket {
    pub open spec fn model(&self) -> PacketModel {
        PacketModel {
            header: self.header,
            questions: questions_model(self.questions@),
            answers: records_model(self.answers@),
            authorities: records_model(self.authorities@),
            resources: records_model(self.resources@),
        }
    }

    /// A copy of the packet.
    pub fn copy(&self) -> (r: DnsPacket)
        ensures
            r.model() == self.model(),
    {
        let mut questions: Vec<DnsQuestion> = Vec::new();
        let mut i: usize = 0;
        while i < self.questions.len()
            invariant
                i <= self.questions@.len(),
                questions@.len() == i,
                questions_model(questions@) == questions_model(self.questions@.subrange(0, i as int)),
            decreases self.questions@.len() - i,
        {
            let q = &self.questions[i];
            let ghost qb = questions@;
            questions.push(DnsQuestion { name: q.name.clone(), qtype: q.qtype });
            assert(questions@.drop_last() =~= qb);
            assert forall|k: int| 0 <= k < i + 1 implies #[trigger] questions_model(questions@)[k] == questions_model(self.questions@.subrange(0, i + 1))[k] by {
                if k < i {
                    assert(questions_model(qb)[k] == questions_model(self.questions@.subrange(0, i as int))[k]);
                    assert(questions@[k] == qb[k]);
                }
            }
            assert(questions_model(questions@) =~= questions_model(self.questions@.subrange(0, i + 1)));
            i = i + 1;
        }
        assert(self.questions@.subrange(0, self.questions@.len() as int) =~= self.questions@);
        DnsPacket {
            header: self.header,
            questions,
            answers: copy_records(&self.answers),
            authorities: copy_records(&self.authorities),
            resources: copy_records(&self.resources),
        }
    }

    /// An empty packet with a zeroed header.
    pub fn new() -> (r: DnsPacket)
        ensures
            r.header == DnsHeader::new_spec(),
            r.questions@.len() == 0,
            r.answers@.len() == 0,
            r.authorities@.len() == 0,
            r.resources@.len() == 0,
    {
        DnsPacket {
            header: DnsHeader::new(),
            questions: Vec::new(),
            answers: Vec::new(),
            authorities: Vec::new(),
            resources: Vec::new(),
        }
    }

    /// Parse a packet at the cursor.
    pub fn from_buffer(buffer: &mut BytePacketBuffer) -> (r: Result<DnsPacket, DnsError>)
        requires
            old(buffer).wf(),
        ensures
            final(buffer).wf(),
            match packet_at(old(buffer).buf@, old(buffer).pos as int) {
                Ok(m) => r matches Ok(p) && p.model() == m && p.header.wf(),
                Err(e) => r == Err::<DnsPacket, DnsError>(e),
            },
    {
        let ghost start = buffer.pos as int;
        let header = DnsHeader::read(buffer)?;
        let ghost buf = buffer.buf@;
        let ghost base = buffer.pos as int;
        let mut questions: Vec<DnsQuestion> = Vec::new();
        let mut i: u16 = 0;
        let n = header.questions;
        while i < n
            invariant
                buffer.wf(),
                buffer.buf@ == buf,
                buf == old(buffer).buf@,
                start == old(buffer).pos,
                base == start + 12,
                start + 12 <= BUF_SIZE,
                header == header_at(buf, start),
                header.wf(),
                n == header.questions,
                i <= n,
                questions_at(buf, base, n as nat) == match questions_at(
                    buf,
                    buffer.pos as int,
                    (n - i) as nat,
                ) {
                    Ok((rest, e)) => Ok((questions_model(questions@) + rest, e)),
                    Err(x) => Err(x),
                },
            decreases n - i,
        {
            let ghost before = questions_model(questions@);
            let q = DnsQuestion::read(buffer)?;
            let ghost m = (q.name@, q.qtype);
            questions.push(q);
            proof {
                assert(questions_model(questions@) =~= before.push(m));
                match questions_at(buf, buffer.pos as int, (n - i - 1) as nat) {
                    Ok((rest, e)) => {
                        assert(before + (seq![m] + rest) =~= before.push(m) + rest);
                    },
                    Err(x) => {},
                }
            }
            i = i + 1;
        }
        proof {
            assert(questions_model(questions@) + Seq::<(Seq<char>, QueryType)>::empty()
                =~= questions_model(questions@));
        }
        let answers = read_records(buffer, header.answers)?;
        let authorities = read_records(buffer, header.authoritative_entries)?;
        let resources = read_records(buffer, header.resource_entries)?;
        Ok(DnsPacket { header, questions, answers, authorities, resources })
    }

    /// Whether every name in the packet is valid, and the length of the
    /// packet's wire form (or some value over 512 where it is longer).
    fn check(&self) -> (r: (bool, usize))
        ensures
            r.0 == packet_names_ok(self.model()),
            r.0 ==> (r.1 == packet_bytes(self.model()).len() || (r.1 > BUF_SIZE && packet_bytes(
                self.model(),
            ).len() > BUF_SIZE)),
    {
        let ghost m = self.model();
        proof {
            lemma_packet_bytes(m);
        }
        let mut i: usize = 0;
        let mut total: usize = 12;
        while i < self.questions.len()
            invariant
                i <= self.questions@.len(),
                m == self.model(),
                forall|k: int| 0 <= k < i ==> name_ok(#[trigger] m.questions[k].0),
                total == 12 + questions_bytes(questions_model(self.questions@.subrange(0, i as int))).len()
                    || (total > BUF_SIZE && 12 + questions_bytes(
                    questions_model(self.questions@.subrange(0, i as int)),
                ).len() > BUF_SIZE),
                total <= BUF_SIZE + 300,
                total >= 12,
            decreases self.questions@.len() - i,
        {
            let q = &self.questions[i];
            assert(m.questions[i as int] == (q.name@, q.qtype));
            if !crate::name::name_ok_exec(q.name.as_str()) {
                assert(!name_ok(m.questions[i as int].0));
                return (false, 0);
            }
            let l = crate::record::question_len(q);
            proof {
                let pre = questions_model(self.questions@.subrange(0, i as int));
                assert(questions_model(self.questions@.subrange(0, i + 1)) =~= pre.push((q.name@, q.qtype)));
                lemma_questions_bytes_push(pre, (q.name@, q.qtype));
            }
            if total <= BUF_SIZE {
                total = total + l;
            }
            i = i + 1;
        }
        assert(self.questions@.subrange(0, self.questions@.len() as int) =~= self.questions@);
        let (a_ok, a_len) = records_check(&self.answers);
        let (u_ok, u_len) = records_check(&self.authorities);
        let (s_ok, s_len) = records_check(&self.resources);
        proof {
            assert forall|k: int| 0 <= k < self.answers@.len() implies m.answers[k] == (#[trigger] self.answers@[k]).model() by {}
            assert forall|k: int| 0 <= k < self.authorities@.len() implies m.authorities[k] == (#[trigger] self.authorities@[k]).model() by {}
            assert forall|k: int| 0 <= k < self.resources@.len() implies m.resources[k] == (#[trigger] self.resources@[k]).model() by {}
        }
        if !a_ok || !u_ok || !s_ok {
            return (false, 0);
        }
        if total > BUF_SIZE || a_len > BUF_SIZE || u_len > BUF_SIZE || s_len > BUF_SIZE {
            return (true, BUF_SIZE + 1);
        }
        (true, total + a_len + u_len + s_len)
    }

    fn write_sections(&self, buffer: &mut BytePacketBuffer)
        requires
            old(buffer).wf(),
            self.header.wf(),
            forall|k: int| 0 <= k < self.questions@.len() ==> name_ok((#[trigger] self.questions@[k]).name@),
            forall|k: int| 0 <= k < self.answers@.len() ==> (#[trigger] self.answers@[k]).model().names_ok(),
            forall|k: int| 0 <= k < self.authorities@.len() ==> (#[trigger] self.authorities@[k]).model().names_ok(),
            forall|k: int| 0 <= k < self.resources@.len() ==> (#[trigger] self.resources@[k]).model().names_ok(),
            old(buffer).pos + packet_bytes(self.model()).len() <= BUF_SIZE,
        ensures
            final(buffer).wf(),
            final(buffer).pos == old(buffer).pos + packet_bytes(self.model()).len(),
            final(buffer).buf@ == splice(old(buffer).buf@, old(buffer).pos as int, packet_bytes(self.model())),
    {
        let ghost b0 = buffer.buf@;
        let ghost base = buffer.pos as int;
        let ghost m = self.model();
        let ghost hq = header_bytes(m.header) + questions_bytes(m.questions);
        let ghost rs = records_bytes(m.answers) + records_bytes(m.authorities) + records_bytes(m.resources);
        proof {
            lemma_packet_bytes(m);
        }
        write_head(buffer, &self.header, &self.questions);
        write_three(buffer, &self.answers, &self.authorities, &self.resources);
        proof {
            lemma_splice_concat(b0, base, hq, rs);
            assert(hq + rs =~= packet_bytes(m));
        }
    }

    /// Write the packet at the cursor, with the header's counts set from the
    /// section lengths.
    #[verifier::rlimit(60)]
    pub fn write(&mut self, buffer: &mut BytePacketBuffer) -> (r: Result<(), DnsError>)
        requires
            old(buffer).wf(),
            old(self).header.wf(),
        ensures
            final(buffer).wf(),
            final(self).questions == old(self).questions,
            final(self).answers == old(self).answers,
            final(self).authorities == old(self).authorities,
            final(self).resources == old(self).resources,
            r is Err ==> final(self).header == old(self).header,
            r is Ok ==> final(self).header == (DnsHeader {
                questions: old(self).questions@.len() as u16,
                answers: old(self).answers@.len() as u16,
                authoritative_entries: old(self).authorities@.len() as u16,
                resource_entries: old(self).resources@.len() as u16,
                ..old(self).header
            }),
            !packet_names_ok(old(self).model()) ==> r == Err::<(), DnsError>(DnsError::MalformedPacket),
            packet_names_ok(old(self).model()) && old(buffer).pos + packet_bytes(old(self).model()).len()
                > BUF_SIZE ==> r == Err::<(), DnsError>(DnsError::EndOfBuffer),
            packet_names_ok(old(self).model()) && old(buffer).pos + packet_bytes(old(self).model()).len()
                <= BUF_SIZE ==> r is Ok && final(buffer).pos == old(buffer).pos + packet_bytes(
                final(self).model(),
            ).len() && final(buffer).buf@ == splice(
                old(buffer).buf@,
                old(buffer).pos as int,
                packet_bytes(final(self).model()),
            ),
    {
        let (ok, len) = self.check();
        if !ok {
            return Err(DnsError::MalformedPacket);
        }
        if len > BUF_SIZE - buffer.pos {
            return Err(DnsError::EndOfBuffer);
        }
        // Every section fits a 512-byte buffer, so each count fits 16 bits.
        proof {
            lemma_section_len(self.model());
        }
        self.header.questions = self.questions.len() as u16;
        self.header.answers = self.answers.len() as u16;
        self.header.authoritative_entries = self.authorities.len() as u16;
        self.header.resource_entries = self.resources.len() as u16;
        proof {
            lemma_names_ok_parts(self);
            lemma_packet_bytes(self.model());
            lemma_packet_bytes(old(self).model());
            assert(packet_bytes(self.model()).len() == packet_bytes(old(self).model()).len());
        }
        self.write_sections(buffer);
        Ok(())
    }
}

} // verus!

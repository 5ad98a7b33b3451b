//! Iterative resolution as a step machine: the library decides, the caller
//! sends queries and hands back replies.
use vstd::prelude::*;
use crate::buffer::DnsError;
use crate::cache::TtlCache;
use crate::header::{DnsHeader, QueryType, ResultCode};
use crate::packet::{questions_model, records_model, DnsPacket, PacketModel};
use crate::record::{DnsQuestion, DnsRecord, RecordModel};
use crate::text::{ends_with, has_suffix, str_eq};

verus! {

/// Transaction id of outgoing queries.
pub const QUERY_ID: u16 = 6666;

/// Most queries one resolution may send or take from the cache.
pub const MAX_HOPS: u32 = 16;

/// The first A record's address among `rs`.
pub open spec fn first_a(rs: Seq<RecordModel>) -> Option<u32>
    decreases rs.len(),
{
    if rs.len() == 0 {
        None
    } else {
        match rs[0] {
            RecordModel::A { addr, .. } => Some(addr),
            _ => first_a(rs.drop_first()),
        }
    }
}

/// The address of the first A record for `host` among `rs`.
pub open spec fn glue_for(rs: Seq<RecordModel>, host: Seq<char>) -> Option<u32>
    decreases rs.len(),
{
    if rs.len() == 0 {
        None
    } else {
        match rs[0] {
            RecordModel::A { domain, addr, .. } => if domain == host {
                Some(addr)
            } else {
                glue_for(rs.drop_first(), host)
            },
            _ => glue_for(rs.drop_first(), host),
        }
    }
}

/// The NS records among `rs` whose domain `qname` ends with, as
/// (domain, name server host) pairs.
pub open spec fn ns_pairs(rs: Seq<RecordModel>, qname: Seq<char>) -> Seq<(Seq<char>, Seq<char>)>
    decreases rs.len(),
{
    if rs.len() == 0 {
        Seq::empty()
    } else {
        match rs[0] {
            RecordModel::NS { domain, host, .. } => if has_suffix(qname, domain) {
                seq![(domain, host)] + ns_pairs(rs.drop_first(), qname)
            } else {
                ns_pairs(rs.drop_first(), qname)
            },
            _ => ns_pairs(rs.drop_first(), qname),
        }
    }
}

/// Glue for the first name server, in `ns` order, that has any.
pub open spec fn resolved_ns(ns: Seq<(Seq<char>, Seq<char>)>, extra: Seq<RecordModel>) -> Option<u32>
    decreases ns.len(),
{
    if ns.len() == 0 {
        None
    } else {
        match glue_for(extra, ns[0].1) {
            Some(a) => Some(a),
            None => resolved_ns(ns.drop_first(), extra),
        }
    }
}

/// The first name server, in `ns` order, without glue.
pub open spec fn unresolved_ns(ns: Seq<(Seq<char>, Seq<char>)>, extra: Seq<RecordModel>) -> Option<
    Seq<char>,
>
    decreases ns.len(),
{
    if ns.len() == 0 {
        None
    } else if glue_for(extra, ns[0].1) is None {
        Some(ns[0].1)
    } else {
        unresolved_ns(ns.drop_first(), extra)
    }
}

fn first_a_exec(v: &Vec<DnsRecord>) -> (r: Option<u32>)
    ensures
        r == first_a(records_model(v@)),
{
    let ghost all = records_model(v@);
    let mut i: usize = 0;
    assert(all.subrange(0, all.len() as int) =~= all);
    while i < v.len()
        invariant
            all == records_model(v@),
            i <= v@.len(),
            first_a(all) == first_a(all.subrange(i as int, all.len() as int)),
        decreases v@.len() - i,
    {
        let ghost rest = all.subrange(i as int, all.len() as int);
        assert(rest.drop_first() =~= all.subrange(i + 1, all.len() as int));
        assert(rest[0] == v@[i as int].model());
        if let DnsRecord::A { addr, .. } = &v[i] {
            return Some(*addr);
        }
        i = i + 1;
    }
    None
}

fn glue_exec(v: &Vec<DnsRecord>, host: &str) -> (r: Option<u32>)
    ensures
        r == glue_for(records_model(v@), host@),
{
    let ghost all = records_model(v@);
    let mut i: usize = 0;
    assert(all.subrange(0, all.len() as int) =~= all);
    while i < v.len()
        invariant
            all == records_model(v@),
            i <= v@.len(),
            glue_for(all, host@) == glue_for(all.subrange(i as int, all.len() as int), host@),
        decreases v@.len() - i,
    {
        let ghost rest = all.subrange(i as int, all.len() as int);
        assert(rest.drop_first() =~= all.subrange(i + 1, all.len() as int));
        assert(rest[0] == v@[i as int].model());
        if let DnsRecord::A { domain, addr, .. } = &v[i] {
            if str_eq(domain.as_str(), host) {
                return Some(*addr);
            }
        }
        i = i + 1;
    }
    None
}

pub open spec fn pairs_view(v: Seq<(String, String)>) -> Seq<(Seq<char>, Seq<char>)> {
    v.map_values(|p: (String, String)| (p.0@, p.1@))
}

impl DnsPacket {
    /// The first A record in the answers (the first, not a random one).
    pub fn get_random_a(&self) -> (r: Option<u32>)
        ensures
            r == first_a(self.model().answers),
    {
        first_a_exec(&self.answers)
    }

    /// (domain, host) of each NS record in the authorities that `qname` ends with.
    pub fn get_ns(&self, qname: &str) -> (r: Vec<(String, String)>)
        ensures
            pairs_view(r@) == ns_pairs(self.model().authorities, qname@),
    {
        let ghost all = self.model().authorities;
        let mut out: Vec<(String, String)> = Vec::new();
        let mut i: usize = 0;
        assert(all.subrange(0, all.len() as int) =~= all);
        assert(pairs_view(out@) + ns_pairs(all, qname@) =~= ns_pairs(all, qname@));
        while i < self.authorities.len()
            invariant
                all == records_model(self.authorities@),
                i <= all.len(),
                ns_pairs(all, qname@) == pairs_view(out@) + ns_pairs(all.subrange(i as int, all.len() as int), qname@),
            decreases all.len() - i,
        {
            let ghost rest = all.subrange(i as int, all.len() as int);
            assert(rest.drop_first() =~= all.subrange(i + 1, all.len() as int));
            assert(rest[0] == self.authorities@[i as int].model());
            if let DnsRecord::NS { domain, host, .. } = &self.authorities[i] {
                if ends_with(qname, domain.as_str()) {
                    let ghost ob = pairs_view(out@);
                    out.push((domain.clone(), host.clone()));
                    assert(pairs_view(out@) =~= ob.push((domain@, host@)));
                    assert(ob + (seq![(domain@, host@)] + ns_pairs(rest.drop_first(), qname@)) =~= pairs_view(out@) + ns_pairs(rest.drop_first(), qname@));
                }
            }
            i = i + 1;
        }
        assert(pairs_view(out@) + Seq::<(Seq<char>, Seq<char>)>::empty() =~= pairs_view(out@));
        out
    }

    /// Glue address of the first matching name server that has an A record
    /// in the additional section.
    pub fn get_resolved_ns(&self, qname: &str) -> (r: Option<u32>)
        ensures
            r == resolved_ns(ns_pairs(self.model().authorities, qname@), self.model().resources),
    {
        let ns = self.get_ns(qname);
        let ghost all = pairs_view(ns@);
        let mut i: usize = 0;
        assert(all.subrange(0, all.len() as int) =~= all);
        while i < ns.len()
            invariant
                all == pairs_view(ns@),
                all == ns_pairs(self.model().authorities, qname@),
                i <= all.len(),
                resolved_ns(all, records_model(self.resources@)) == resolved_ns(all.subrange(i as int, all.len() as int), records_model(self.resources@)),
            decreases all.len() - i,
        {
            let ghost rest = all.subrange(i as int, all.len() as int);
            assert(rest.drop_first() =~= all.subrange(i + 1, all.len() as int));
            assert(rest[0].1 == ns@[i as int].1@);
            if let Some(a) = glue_exec(&self.resources, ns[i].1.as_str()) {
                return Some(a);
            }
            i = i + 1;
        }
        None
    }

    /// Host of the first matching name server without glue.
    pub fn get_unresolved_ns(&self, qname: &str) -> (r: Option<String>)
        ensures
            r matches Some(h) ==> unresolved_ns(ns_pairs(self.model().authorities, qname@), self.model().resources) == Some(h@),
            r is None ==> unresolved_ns(ns_pairs(self.model().authorities, qname@), self.model().resources) is None,
    {
        let ns = self.get_ns(qname);
        let ghost all = pairs_view(ns@);
        let mut i: usize = 0;
        assert(all.subrange(0, all.len() as int) =~= all);
        while i < ns.len()
            invariant
                all == pairs_view(ns@),
                all == ns_pairs(self.model().authorities, qname@),
                i <= all.len(),
                unresolved_ns(all, records_model(self.resources@)) == unresolved_ns(all.subrange(i as int, all.len() as int), records_model(self.resources@)),
            decreases all.len() - i,
        {
            let ghost rest = all.subrange(i as int, all.len() as int);
            assert(rest.drop_first() =~= all.subrange(i + 1, all.len() as int));
            assert(rest[0].1 == ns@[i as int].1@);
            if glue_exec(&self.resources, ns[i].1.as_str()).is_none() {
                return Some(ns[i].1.clone());
            }
            i = i + 1;
        }
        None
    }
}


/// What a reply tells the resolver to do next.
pub enum Referral {
    /// An answer, or a name error: the reply is the result.
    Answer,
    /// Continue at this name server, whose address came as glue.
    Glue(u32),
    /// Resolve this name server's address first.
    Resolve(String),
    /// Nowhere to go: the reply is the result.
    GiveUp,
}

pub enum ReferralModel {
    Answer,
    Glue(u32),
    Resolve(Seq<char>),
    GiveUp,
}

impl Referral {
    pub open spec fn model(&self) -> ReferralModel {
        match self {
            Referral::Answer => ReferralModel::Answer,
            Referral::Glue(a) => ReferralModel::Glue(*a),
            Referral::Resolve(h) => ReferralModel::Resolve(h@),
            Referral::GiveUp => ReferralModel::GiveUp,
        }
    }
}

/// A reply with answers and `NOERROR`, or with `NXDOMAIN`, ends the walk;
/// otherwise glue is preferred, then a name server to resolve.
pub open spec fn classify_spec(p: PacketModel, qname: Seq<char>) -> ReferralModel {
    if p.header.rescode == ResultCode::NOERROR && p.answers.len() > 0 {
        ReferralModel::Answer
    } else if p.header.rescode == ResultCode::NXDOMAIN {
        ReferralModel::Answer
    } else {
        let ns = ns_pairs(p.authorities, qname);
        match resolved_ns(ns, p.resources) {
            Some(a) => ReferralModel::Glue(a),
            None => match unresolved_ns(ns, p.resources) {
                Some(h) => ReferralModel::Resolve(h),
                None => ReferralModel::GiveUp,
            },
        }
    }
}

/// Decide what a reply to a query for `qname` means.
pub fn classify(p: &DnsPacket, qname: &str) -> (r: Referral)
    ensures
        r.model() == classify_spec(p.model(), qname@),
{
    if p.header.rescode == ResultCode::NOERROR && p.answers.len() > 0 {
        return Referral::Answer;
    }
    if p.header.rescode == ResultCode::NXDOMAIN {
        return Referral::Answer;
    }
    match p.get_resolved_ns(qname) {
        Some(a) => Referral::Glue(a),
        None => match p.get_unresolved_ns(qname) {
            Some(h) => Referral::Resolve(h),
            None => Referral::GiveUp,
        },
    }
}

/// The query that asks `qname`/`qtype` with recursion desired.
pub fn build_query(qname: &str, qtype: QueryType) -> (r: DnsPacket)
    ensures
        r.header == (DnsHeader {
            id: QUERY_ID,
            questions: 1,
            recursion_desired: true,
            ..DnsHeader::new_spec()
        }),
        r.model().questions == seq![(qname@, qtype)],
        r.answers@.len() == 0,
        r.authorities@.len() == 0,
        r.resources@.len() == 0,
{
    let mut p = DnsPacket::new();
    p.header.id = QUERY_ID;
    p.header.questions = 1;
    p.header.recursion_desired = true;
    p.questions.push(DnsQuestion::new(String::from_str(qname), qtype));
    assert(p.model().questions =~= seq![(qname@, qtype)]);
    p
}

/// One name being resolved: where to ask next, and the last referral.
pub struct Frame {
    pub qname: String,
    pub qtype: QueryType,
    pub ns: u32,
    pub last: Option<DnsPacket>,
}

pub struct FrameModel {
    pub qname: Seq<char>,
    pub qtype: QueryType,
    pub ns: u32,
    pub last: Option<PacketModel>,
}

pub open spec fn opt_model(p: Option<DnsPacket>) -> Option<PacketModel> {
    match p {
        Some(x) => Some(x.model()),
        None => None,
    }
}

impl Frame {
    pub open spec fn model(&self) -> FrameModel {
        FrameModel { qname: self.qname@, qtype: self.qtype, ns: self.ns, last: opt_model(self.last) }
    }
}

pub open spec fn frames_model(v: Seq<Frame>) -> Seq<FrameModel> {
    v.map_values(|f: Frame| f.model())
}

/// A finished lookup's result `r` goes to the frame that asked for it: its
/// first A record becomes that frame's name server; without one, that
/// frame ends with its last referral, which goes on up in turn.
pub open spec fn deliver_spec(frames: Seq<FrameModel>, r: PacketModel) -> (Seq<FrameModel>, Option<PacketModel>)
    decreases frames.len(),
{
    if frames.len() == 0 {
        (frames, Some(r))
    } else {
        let top = frames.last();
        match first_a(r.answers) {
            Some(ip) => (frames.drop_last().push(FrameModel { ns: ip, ..top }), None),
            None => match top.last {
                Some(l) => deliver_spec(frames.drop_last(), l),
                None => deliver_spec(frames.drop_last(), r),
            },
        }
    }
}

/// The frames after the top frame takes in reply `p`, and the overall
/// result when the walk is over.
pub open spec fn handle_spec(frames: Seq<FrameModel>, seed: u32, p: PacketModel) -> (Seq<FrameModel>, Option<PacketModel>) {
    let top = frames.last();
    match classify_spec(p, top.qname) {
        ReferralModel::Glue(ip) => (frames.drop_last().push(FrameModel { ns: ip, last: Some(p), ..top }), None),
        ReferralModel::Resolve(h) => (
            frames.drop_last().push(FrameModel { last: Some(p), ..top }).push(
                FrameModel { qname: h, qtype: QueryType::A, ns: seed, last: None },
            ),
            None,
        ),
        _ => deliver_spec(frames.drop_last(), p),
    }
}

/// What the caller does next.
pub enum Action {
    /// Send this query to `server` on port 53 and hand the reply to `on_reply`.
    Send { server: u32, qname: String, qtype: QueryType },
    /// A cached reply was taken; poll again.
    Continue,
    /// The resolution is over.
    Finish(Result<DnsPacket, DnsError>),
}

/// An iterative resolution in progress.
pub struct Resolution {
    seed: u32,
    frames: Vec<Frame>,
    hops: u32,
}

impl Resolution {
    pub closed spec fn frames(&self) -> Seq<FrameModel> {
        frames_model(self.frames@)
    }

    pub closed spec fn seed(&self) -> u32 {
        self.seed
    }

    pub closed spec fn hops(&self) -> u32 {
        self.hops
    }

    /// Start resolving `qname`/`qtype` at the seed name server.
    pub fn new(seed: u32, qname: &str, qtype: QueryType) -> (r: Resolution)
        ensures
            r.seed() == seed,
            r.hops() == 0,
            r.frames() == seq![FrameModel { qname: qname@, qtype, ns: seed, last: None }],
    {
        let mut frames: Vec<Frame> = Vec::new();
        frames.push(Frame { qname: String::from_str(qname), qtype, ns: seed, last: None });
        let r = Resolution { seed, frames, hops: 0 };
        assert(r.frames() =~= seq![FrameModel { qname: qname@, qtype, ns: seed, last: None }]);
        r
    }

    /// Whether the resolution has ended.
    pub fn is_done(&self) -> (r: bool)
        ensures
            r == (self.frames().len() == 0),
    {
        self.frames.len() == 0
    }

    fn deliver(&mut self, first: DnsPacket) -> (r: Option<DnsPacket>)
        ensures
            final(self).seed() == old(self).seed(),
            final(self).hops() == old(self).hops(),
            (final(self).frames(), opt_model(r)) == deliver_spec(old(self).frames(), first.model()),
    {
        let mut result = first;
        loop
            invariant
                self.seed() == old(self).seed(),
                self.hops() == old(self).hops(),
                deliver_spec(old(self).frames(), first.model()) == deliver_spec(self.frames(), result.model()),
            decreases self.frames@.len(),
        {
            let ghost fs = self.frames();
            match self.frames.pop() {
                None => {
                    assert(fs.len() == 0);
                    return Some(result);
                },
                Some(mut top) => {
                    assert(fs.drop_last() =~= self.frames());
                    assert(fs.last() == top.model());
                    match result.get_random_a() {
                        Some(ip) => {
                            top.ns = ip;
                            self.frames.push(top);
                            assert(self.frames() =~= fs.drop_last().push(FrameModel { ns: ip, ..fs.last() }));
                            return None;
                        },
                        None => {
                            match top.last {
                                Some(l) => {
                                    result = l;
                                },
                                None => {},
                            }
                        },
                    }
                },
            }
        }
    }

    fn handle(&mut self, p: DnsPacket) -> (r: Option<DnsPacket>)
        requires
            old(self).frames().len() > 0,
        ensures
            final(self).seed() == old(self).seed(),
            final(self).hops() == old(self).hops(),
            (final(self).frames(), opt_model(r)) == handle_spec(old(self).frames(), old(self).seed(), p.model()),
    {
        let ghost fs = self.frames();
        let mut top = self.frames.pop().unwrap();
        assert(fs.drop_last() =~= self.frames());
        assert(fs.last() == top.model());
        match classify(&p, top.qname.as_str()) {
            Referral::Glue(ip) => {
                top.ns = ip;
                top.last = Some(p);
                self.frames.push(top);
                assert(self.frames() =~= fs.drop_last().push(FrameModel { ns: ip, last: Some(p.model()), ..fs.last() }));
                None
            },
            Referral::Resolve(h) => {
                top.last = Some(p);
                self.frames.push(top);
                self.frames.push(Frame { qname: h, qtype: QueryType::A, ns: self.seed, last: None });
                assert(self.frames() =~= fs.drop_last().push(FrameModel { last: Some(p.model()), ..fs.last() }).push(
                    FrameModel { qname: h@, qtype: QueryType::A, ns: self.seed, last: None },
                ));
                None
            },
            _ => self.deliver(p),
        }
    }

    /// One step: give up past the hop ceiling, take a fresh cached reply for
    /// the current name, or ask the caller to send the query.
    pub fn poll(&mut self, cache: &TtlCache, now: u64) -> (r: Action)
        requires
            old(self).frames().len() > 0,
        ensures
            final(self).seed() == old(self).seed(),
            old(self).hops() >= MAX_HOPS ==> r == Action::Finish(Err(DnsError::HopLimitExceeded))
                && final(self).frames().len() == 0,
            old(self).hops() < MAX_HOPS ==> final(self).hops() == old(self).hops() + 1,
            old(self).hops() < MAX_HOPS && !cache_hit(cache, old(self).frames().last().qname, now) ==> (r matches Action::Send { server, qname, qtype }
                && server == old(self).frames().last().ns && qname@ == old(self).frames().last().qname
                && qtype == old(self).frames().last().qtype && final(self).frames() == old(self).frames()),
            old(self).hops() < MAX_HOPS && cache_hit(cache, old(self).frames().last().qname, now) ==> ({
                let (fs, res) = handle_spec(old(self).frames(), old(self).seed(), cache.model()[old(self).frames().last().qname].1);
                &&& final(self).frames() == fs
                &&& (res matches Some(x) ==> (r matches Action::Finish(Ok(p)) && p.model() == x))
                &&& (res is None ==> r is Continue)
            }),
    {
        if self.hops >= MAX_HOPS {
            self.frames = Vec::new();
            assert(self.frames() =~= Seq::empty());
            return Action::Finish(Err(DnsError::HopLimitExceeded));
        }
        self.hops = self.hops + 1;
        let n = self.frames.len();
        let ghost fs = self.frames();
        assert(fs.last() == self.frames@[n - 1].model());
        let cached = cache.get(self.frames[n - 1].qname.as_str(), now);
        match cached {
            Some(p) => match self.handle(p) {
                Some(res) => Action::Finish(Ok(res)),
                None => Action::Continue,
            },
            None => {
                let top = &self.frames[n - 1];
                Action::Send { server: top.ns, qname: top.qname.clone(), qtype: top.qtype }
            },
        }
    }

    /// Take in the reply to the last `Send`: an error ends the resolution; a
    /// reply with answers is cached; the reply then moves the walk on.
    pub fn on_reply(&mut self, cache: &mut TtlCache, now: u64, reply: Result<DnsPacket, DnsError>) -> (r: Option<Action>)
        requires
            old(self).frames().len() > 0,
        ensures
            final(self).seed() == old(self).seed(),
            final(self).hops() == old(self).hops(),
            reply matches Err(e) ==> r == Some(Action::Finish(Err(e))) && final(self).frames().len() == 0
                && final(cache).model() == old(cache).model(),
            reply matches Ok(p) ==> ({
                let (fs, res) = handle_spec(old(self).frames(), old(self).seed(), p.model());
                &&& final(self).frames() == fs
                &&& (res matches Some(x) ==> (r matches Some(Action::Finish(Ok(q))) && q.model() == x))
                &&& (res is None ==> r is None)
                &&& (p.answers@.len() > 0 ==> final(cache).model() == old(cache).model().insert(
                    old(self).frames().last().qname,
                    (now, p.model()),
                ))
                &&& (p.answers@.len() == 0 ==> final(cache).model() == old(cache).model())
            }),
    {
        match reply {
            Err(e) => {
                self.frames = Vec::new();
                assert(self.frames() =~= Seq::empty());
                Some(Action::Finish(Err(e)))
            },
            Ok(p) => {
                let n = self.frames.len();
                assert(self.frames().last() == self.frames@[n - 1].model());
                cache.store(self.frames[n - 1].qname.as_str(), now, &p);
                match self.handle(p) {
                    Some(res) => Some(Action::Finish(Ok(res))),
                    None => None,
                }
            },
        }
    }
}

/// A fresh entry for `qname` is in the cache at `now`.
pub open spec fn cache_hit(cache: &TtlCache, qname: Seq<char>, now: u64) -> bool {
    cache.model().dom().contains(qname) && crate::cache::is_fresh(
        cache.model()[qname].0,
        now,
        cache.model()[qname].1,
    )
}

} // verus!

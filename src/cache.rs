//! Answer cache keyed by query name; entries expire by their first answer's TTL.
use vstd::prelude::*;
use crate::packet::{DnsPacket, PacketModel};
use crate::record::RecordModel;
use crate::store::{CachedAnswer, cache_entries, cache_map_get, cache_map_insert, cache_map_new};

verus! {

/// TTL of a packet's first answer, or 0 when it has none.
pub open spec fn first_ttl(p: PacketModel) -> u32 {
    if p.answers.len() == 0 {
        0
    } else {
        p.answers[0].ttl()
    }
}

/// Seconds from `fetched_at` to `now`; a clock that went back counts as none.
pub open spec fn elapsed(fetched_at: u64, now: u64) -> int {
    if now >= fetched_at {
        now - fetched_at
    } else {
        0
    }
}

/// An entry fetched at `fetched_at` is still good at `now`.
pub open spec fn is_fresh(fetched_at: u64, now: u64, p: PacketModel) -> bool {
    elapsed(fetched_at, now) < first_ttl(p)
}

/// Query name to fetch time (seconds) and packet.
pub struct TtlCache {
    entries: dashmap::DashMap<String, CachedAnswer>,
}

impl TtlCache {
    pub closed spec fn model(&self) -> Map<Seq<char>, (u64, PacketModel)> {
        cache_entries(self.entries)
    }

    pub fn new() -> (r: Self)
        ensures
            r.model() == Map::<Seq<char>, (u64, PacketModel)>::empty(),
    {
        TtlCache { entries: cache_map_new() }
    }

    /// The packet cached under `qname`, if it is still fresh at `now`.
    pub fn get(&self, qname: &str, now: u64) -> (r: Option<DnsPacket>)
        ensures
            r is Some <==> (self.model().dom().contains(qname@) && is_fresh(
                self.model()[qname@].0,
                now,
                self.model()[qname@].1,
            )),
            r matches Some(p) ==> p.model() == self.model()[qname@].1,
    {
        match cache_map_get(&self.entries, qname) {
            Some(CachedAnswer { fetched_at: fetched, packet: p }) => {
                let ttl: u32 = if p.answers.len() == 0 {
                    0
                } else {
                    p.answers[0].ttl()
                };
                let age: u64 = if now >= fetched {
                    now - fetched
                } else {
                    0
                };
                if age < ttl as u64 {
                    Some(p)
                } else {
                    None
                }
            },
            None => None,
        }
    }

    /// Remember `packet` for `qname` as fetched at `now`, when it has answers.
    pub fn store(&mut self, qname: &str, now: u64, packet: &DnsPacket)
        ensures
            packet.answers@.len() > 0 ==> final(self).model() == old(self).model().insert(
                qname@,
                (now, packet.model()),
            ),
            packet.answers@.len() == 0 ==> final(self).model() == old(self).model(),
    {
        if packet.answers.len() == 0 {
            return;
        }
        cache_map_insert(
            &mut self.entries,
            String::from_str(qname),
            CachedAnswer { fetched_at: now, packet: packet.copy() },
        );
    }
}

/// A cached packet is handed out only while its first answer's TTL has not
/// run out since it was fetched; an entry without answers is never handed out.
pub proof fn lemma_cache_freshness(fetched_at: u64, now: u64, p: PacketModel)
    requires
        is_fresh(fetched_at, now, p),
    ensures
        p.answers.len() > 0,
        elapsed(fetched_at, now) < p.answers[0].ttl(),
{
}

} // verus!

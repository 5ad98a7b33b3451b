//! The concurrent maps behind the rewrite table and the answer cache.
//! `dashmap::DashMap` changes through `&self`; these wrappers take it by
//! `&mut` so that each change shows in its contract.
use vstd::prelude::*;
use crate::packet::{DnsPacket, PacketModel};
use crate::record::{DnsRecord, RecordModel};

verus! {

#[verifier::external_type_specification]
#[verifier::external_body]
#[verifier::reject_recursive_types(K)]
#[verifier::reject_recursive_types(V)]
#[verifier::reject_recursive_types(S)]
pub struct ExDashMap<K, V, S>(dashmap::DashMap<K, V, S>);

/// What a rewrite map holds: host to record.
pub uninterp spec fn rewrite_entries(m: dashmap::DashMap<String, DnsRecord>) -> Map<
    Seq<char>,
    RecordModel,
>;

/// Host to rewrite record.
pub type RewriteMap = dashmap::DashMap<String, DnsRecord>;

/// Query name to cached reply.
pub type CacheMap = dashmap::DashMap<String, CachedAnswer>;

/// A cached reply and when it was fetched, in seconds.
pub struct CachedAnswer {
    pub fetched_at: u64,
    pub packet: DnsPacket,
}

/// What a cache map holds: query name to fetch time and packet.
pub uninterp spec fn cache_entries(m: dashmap::DashMap<String, CachedAnswer>) -> Map<
    Seq<char>,
    (u64, PacketModel),
>;

pub open spec fn no_rewrites() -> Map<Seq<char>, RecordModel> {
    Map::empty()
}

pub open spec fn no_cached() -> Map<Seq<char>, (u64, PacketModel)> {
    Map::empty()
}

/// Later entries override earlier ones with the same host.
pub open spec fn entries_map(s: Seq<(String, DnsRecord)>) -> Map<Seq<char>, RecordModel>
    decreases s.len(),
{
    if s.len() == 0 {
        Map::empty()
    } else {
        entries_map(s.drop_last()).insert(s.last().0@, s.last().1.model())
    }
}

/// Relies on `DashMap::new`: an empty map.
#[verifier::external_body]
pub(crate) fn rewrite_map_new() -> (r: RewriteMap)
    ensures
        rewrite_entries(r) == no_rewrites(),
{
    dashmap::DashMap::new()
}

/// Relies on `DashMap::insert`: sets the value for the key, replacing any.
#[verifier::external_body]
pub(crate) fn rewrite_map_insert(m: &mut dashmap::DashMap<String, DnsRecord>, k: String, v: DnsRecord)
    ensures
        rewrite_entries(*final(m)) == rewrite_entries(*old(m)).insert(k@, v.model()),
{
    m.insert(k, v);
}

/// Relies on `DashMap::remove`: drops the key and its value, if present.
#[verifier::external_body]
pub(crate) fn rewrite_map_remove(m: &mut dashmap::DashMap<String, DnsRecord>, k: &str)
    ensures
        rewrite_entries(*final(m)) == rewrite_entries(*old(m)).remove(k@),
{
    m.remove(k);
}

/// Relies on `DashMap::get`: the value stored under the key, copied out.
#[verifier::external_body]
pub(crate) fn rewrite_map_get(m: &dashmap::DashMap<String, DnsRecord>, k: &str) -> (r: Option<DnsRecord>)
    ensures
        r is Some == rewrite_entries(*m).dom().contains(k@),
        r matches Some(v) ==> v.model() == rewrite_entries(*m)[k@],
{
    m.get(k).map(|e| e.value().copy())
}

/// Relies on `DashMap::iter`: each key once, with its value, copied out.
#[verifier::external_body]
pub(crate) fn rewrite_map_entries(m: &dashmap::DashMap<String, DnsRecord>) -> (r: Vec<(String, DnsRecord)>)
    ensures
        entries_map(r@) == rewrite_entries(*m),
{
    m.iter().map(|e| (e.key().clone(), e.value().copy())).collect()
}

/// Relies on `DashMap::new`: an empty map.
#[verifier::external_body]
pub(crate) fn cache_map_new() -> (r: CacheMap)
    ensures
        cache_entries(r) == no_cached(),
{
    dashmap::DashMap::new()
}

/// Relies on `DashMap::insert`: sets the value for the key, replacing any.
#[verifier::external_body]
pub(crate) fn cache_map_insert(m: &mut dashmap::DashMap<String, CachedAnswer>, k: String, v: CachedAnswer)
    ensures
        cache_entries(*final(m)) == cache_entries(*old(m)).insert(k@, (v.fetched_at, v.packet.model())),
{
    m.insert(k, v);
}

/// Relies on `DashMap::get`: the value stored under the key, copied out.
#[verifier::external_body]
pub(crate) fn cache_map_get(m: &dashmap::DashMap<String, CachedAnswer>, k: &str) -> (r: Option<CachedAnswer>)
    ensures
        r is Some == cache_entries(*m).dom().contains(k@),
        r matches Some(v) ==> v.fetched_at == cache_entries(*m)[k@].0 && v.packet.model()
            == cache_entries(*m)[k@].1,
{
    m.get(k).map(|e| CachedAnswer { fetched_at: e.value().fetched_at, packet: e.value().packet.copy() })
}

} // verus!

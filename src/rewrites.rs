//! Local rewrites: fixed answers for chosen hosts, some owned by an external source.
use vstd::prelude::*;
use crate::record::{DnsRecord, RecordModel};
use crate::store::{
    entries_map, rewrite_entries, rewrite_map_entries, rewrite_map_get, rewrite_map_insert,
    rewrite_map_new, rewrite_map_remove,
};

verus! {

/// An IPv4 or IPv6 address, as its 32- or 128-bit value.
#[derive(Debug, Clone, Copy, PartialEq, Eq, Structural)]
pub enum IpAddress {
    V4(u32),
    V6(u128),
}

/// A host and the address it should resolve to.
#[derive(Debug, Clone)]
pub struct RewriteRule {
    pub host: String,
    pub ip: IpAddress,
}

/// TTL of a rewrite answer, in seconds.
pub const REWRITE_TTL: u32 = 500;

/// The record a rewrite answers with: A for IPv4, AAAA for IPv6.
pub open spec fn rule_record(host: Seq<char>, ip: IpAddress) -> RecordModel {
    match ip {
        IpAddress::V4(a) => RecordModel::A { domain: host, addr: a, ttl: REWRITE_TTL },
        IpAddress::V6(a) => RecordModel::AAAA { domain: host, addr: a, ttl: REWRITE_TTL },
    }
}

/// The table after removing each host in turn.
pub open spec fn remove_all(m: Map<Seq<char>, RecordModel>, hosts: Seq<Seq<char>>) -> Map<
    Seq<char>,
    RecordModel,
>
    decreases hosts.len(),
{
    if hosts.len() == 0 {
        m
    } else {
        remove_all(m.remove(hosts[0]), hosts.drop_first())
    }
}

/// The table after adding each rule in turn.
pub open spec fn add_all(m: Map<Seq<char>, RecordModel>, rules: Seq<RewriteRule>) -> Map<
    Seq<char>,
    RecordModel,
>
    decreases rules.len(),
{
    if rules.len() == 0 {
        m
    } else {
        add_all(
            m.insert(rules[0].host@, rule_record(rules[0].host@, rules[0].ip)),
            rules.drop_first(),
        )
    }
}

pub open spec fn host_views(v: Seq<String>) -> Seq<Seq<char>> {
    v.map_values(|s: String| s@)
}

pub open spec fn rule_hosts(rules: Seq<RewriteRule>) -> Seq<Seq<char>> {
    rules.map_values(|r: RewriteRule| r.host@)
}

pub struct RewritesData {
    pub rewrites: dashmap::DashMap<String, DnsRecord>,
    pub from_k8s: Vec<String>,
}

pub struct Rewrites {
    data: RewritesData,
}

impl Rewrites {
    /// Host to record.
    pub closed spec fn model(&self) -> Map<Seq<char>, RecordModel> {
        rewrite_entries(self.data.rewrites)
    }

    /// Hosts owned by the external source.
    pub closed spec fn external(&self) -> Seq<Seq<char>> {
        host_views(self.data.from_k8s@)
    }

    pub fn new() -> (r: Self)
        ensures
            r.model() == Map::<Seq<char>, RecordModel>::empty(),
            r.external().len() == 0,
    {
        let r = Rewrites { data: RewritesData { rewrites: rewrite_map_new(), from_k8s: Vec::new() } };
        assert(r.external() =~= Seq::empty());
        r
    }

    /// Insert or overwrite the rewrite for `rule.host`.
    pub fn add_rewrite(&mut self, rule: &RewriteRule)
        ensures
            final(self).model() == old(self).model().insert(
                rule.host@,
                rule_record(rule.host@, rule.ip),
            ),
            final(self).external() == old(self).external(),
    {
        let rec = match rule.ip {
            IpAddress::V4(a) => DnsRecord::A { domain: rule.host.clone(), addr: a, ttl: REWRITE_TTL },
            IpAddress::V6(a) => DnsRecord::AAAA {
                domain: rule.host.clone(),
                addr: a,
                ttl: REWRITE_TTL,
            },
        };
        rewrite_map_insert(&mut self.data.rewrites, rule.host.clone(), rec);
    }

    /// Drop the rewrite for `host`, if any.
    pub fn remove_rewrite(&mut self, host: &str)
        ensures
            final(self).model() == old(self).model().remove(host@),
            final(self).external() == old(self).external(),
    {
        rewrite_map_remove(&mut self.data.rewrites, host);
    }

    /// The rewrite for exactly `host`.
    pub fn get_rewrite(&self, host: &str) -> (r: Option<DnsRecord>)
        ensures
            self.model().dom().contains(host@) ==> (r matches Some(rec) && rec.model()
                == self.model()[host@]),
            !self.model().dom().contains(host@) ==> r is None,
    {
        rewrite_map_get(&self.data.rewrites, host)
    }

    /// Every rewrite, as host and record.
    pub fn get_rewrites(&self) -> (r: Vec<(String, DnsRecord)>)
        ensures
            entries_map(r@) == self.model(),
    {
        rewrite_map_entries(&self.data.rewrites)
    }

    /// Replace the externally owned rewrites: drop every host the source
    /// owned, add each new rule in order, and record the new hosts as owned.
    pub fn add_k8s_rewrites(&mut self, rules: Vec<RewriteRule>)
        ensures
            final(self).model() == add_all(remove_all(old(self).model(), old(self).external()), rules@),
            final(self).external() == rule_hosts(rules@),
    {
        let ghost ext = self.external();
        let mut i: usize = 0;
        assert(ext.subrange(0, ext.len() as int) =~= ext);
        while i < self.data.from_k8s.len()
            invariant
                ext == host_views(self.data.from_k8s@),
                i <= ext.len(),
                remove_all(old(self).model(), ext) == remove_all(self.model(), ext.subrange(i as int, ext.len() as int)),
            decreases ext.len() - i,
        {
            let ghost rest = ext.subrange(i as int, ext.len() as int);
            assert(rest.drop_first() =~= ext.subrange(i + 1, ext.len() as int));
            let h = self.data.from_k8s[i].clone();
            self.remove_rewrite(h.as_str());
            i = i + 1;
        }
        let mut hosts: Vec<String> = Vec::new();
        let mut k: usize = 0;
        assert(rules@.subrange(0, rules@.len() as int) =~= rules@);
        while k < rules.len()
            invariant
                k <= rules@.len(),
                add_all(remove_all(old(self).model(), ext), rules@) == add_all(self.model(), rules@.subrange(k as int, rules@.len() as int)),
                hosts@.len() == k,
                host_views(hosts@) == rule_hosts(rules@.subrange(0, k as int)),
            decreases rules@.len() - k,
        {
            let ghost rest = rules@.subrange(k as int, rules@.len() as int);
            assert(rest.drop_first() =~= rules@.subrange(k + 1, rules@.len() as int));
            self.add_rewrite(&rules[k]);
            let ghost hb = hosts@;
            hosts.push(rules[k].host.clone());
            assert forall|x: int| 0 <= x < k + 1 implies #[trigger] host_views(hosts@)[x]
                == rule_hosts(rules@.subrange(0, k + 1))[x] by {
                if x < k {
                    assert(hosts@[x] == hb[x]);
                    assert(rule_hosts(rules@.subrange(0, k as int))[x] == rules@[x].host@);
                }
            }
            assert(host_views(hosts@) =~= rule_hosts(rules@.subrange(0, k + 1)));
            k = k + 1;
        }
        self.data.from_k8s = hosts;
    }
}

} // verus!

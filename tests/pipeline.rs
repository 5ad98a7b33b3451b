use mindns::block::{parse_line, split_lines, BlockRegex, Blocker, LineRule};
use mindns::buffer::DnsError;
use mindns::cache::TtlCache;
use mindns::config::{
    BlockSettingsFile, Config, ConfigError, ConfigFile, MirrorSettingsFile, ServerSettings,
    ServerSettingsFile,
};
use mindns::header::{QueryType, ResultCode};
use mindns::packet::DnsPacket;
use mindns::pipeline::{
    begin_response, decode_request, encode_response, finish_lookup, handle_query, start_response, Route,
};
use mindns::record::{DnsQuestion, DnsRecord};
use mindns::resolver::{build_query, classify, Action, Referral, Resolution, QUERY_ID};
use mindns::rewrites::{IpAddress, RewriteRule, Rewrites};

fn config(block: bool, mirror: bool, rewrites: Vec<RewriteRule>) -> Config {
    Config::from_file(ConfigFile {
        server: None,
        mirror: Some(MirrorSettingsFile { enabled: Some(mirror), servers: vec!["198.41.0.4".to_string()] }),
        block: Some(BlockSettingsFile { enabled: Some(block), lists: vec!["lists/ads.txt".to_string()] }),
        rewrites,
    })
    .unwrap()
}

fn request(name: &str, qtype: QueryType) -> DnsPacket {
    let mut p = DnsPacket::new();
    p.header.id = 31337;
    p.questions.push(DnsQuestion::new(name.to_string(), qtype));
    p
}

fn run(cfg: &Config, blocker: &Blocker, rewrites: &Rewrites, name: &str, qtype: QueryType) -> (DnsPacket, Route) {
    let req = request(name, qtype);
    let mut out = begin_response(&req);
    let q = req.questions[0].clone();
    let route = handle_query(cfg, &q, &mut out, blocker, rewrites);
    (out, route)
}

#[test]
fn rewrite_short_circuit() {
    let rule = RewriteRule { host: "api.local".to_string(), ip: IpAddress::V4(0x0a000007) };
    let cfg = config(true, true, vec![rule.clone()]);
    let mut rewrites = Rewrites::new();
    rewrites.add_rewrite(&rule);
    // A blocker that would block everything: the rewrite still wins.
    let mut blocker = Blocker::new(vec![]);
    blocker.parse_hosts("||local^\n");
    let (out, route) = run(&cfg, &blocker, &rewrites, "api.local", QueryType::A);
    assert!(matches!(route, Route::Rewrite));
    assert_eq!(out.header.rescode, ResultCode::NOERROR);
    assert_eq!(out.answers, vec![DnsRecord::A { domain: "api.local".to_string(), addr: 0x0a000007, ttl: 500 }]);
    assert_eq!(out.header.id, 31337);
    assert_eq!(out.questions, vec![DnsQuestion::new("api.local".to_string(), QueryType::A)]);
}

#[test]
fn rewrite_ipv6_is_aaaa() {
    let mut rewrites = Rewrites::new();
    rewrites.add_rewrite(&RewriteRule { host: "v6.local".to_string(), ip: IpAddress::V6(1) });
    assert_eq!(
        rewrites.get_rewrite("v6.local"),
        Some(DnsRecord::AAAA { domain: "v6.local".to_string(), addr: 1, ttl: 500 })
    );
    assert_eq!(rewrites.get_rewrite("other.local"), None);
    assert_eq!(rewrites.get_rewrite("v6.local.extra"), None);
}

#[test]
fn block_with_allow_override() {
    let cfg = config(true, true, vec![]);
    let rewrites = Rewrites::new();
    let mut blocker = Blocker::new(vec![]);
    let n = blocker.parse_hosts("||ads.example^\n@@||tracking.ads.example^\n");
    assert_eq!(n, 1);
    let (out, route) = run(&cfg, &blocker, &rewrites, "ads.example", QueryType::A);
    assert!(matches!(route, Route::Blocked));
    assert_eq!(out.header.rescode, ResultCode::NXDOMAIN);
    assert!(out.answers.is_empty());
    let (out2, route2) = run(&cfg, &blocker, &rewrites, "tracking.ads.example", QueryType::A);
    assert!(matches!(route2, Route::Lookup));
    assert_eq!(out2.header.rescode, ResultCode::NOERROR);
}

#[test]
fn allow_suffix_beats_every_deny() {
    let mut blocker = Blocker::new(vec![]);
    blocker.block("x.test", false);
    blocker.block("test", true);
    blocker.add_regex("^x");
    assert!(blocker.is_blocked("x.test"));
    blocker.unblock(".test");
    assert!(!blocker.is_blocked("x.test"));
    assert!(blocker.is_blocked("test"));
}

#[test]
fn block_disabled_falls_through() {
    let cfg = config(false, true, vec![]);
    let mut blocker = Blocker::new(vec![]);
    blocker.parse_hosts("||ads.example^");
    let (_, route) = run(&cfg, &blocker, &Rewrites::new(), "ads.example", QueryType::A);
    assert!(matches!(route, Route::Lookup));
}

#[test]
fn local_suffix_rejection() {
    let cfg = config(true, true, vec![]);
    let (out, route) = run(&cfg, &Blocker::new(vec![]), &Rewrites::new(), "printer.home.arpa", QueryType::AAAA);
    assert!(matches!(route, Route::Local));
    assert_eq!(out.header.rescode, ResultCode::NXDOMAIN);
    let cfg_off = config(true, false, vec![]);
    let (out2, route2) = run(&cfg_off, &Blocker::new(vec![]), &Rewrites::new(), "printer.home.arpa", QueryType::AAAA);
    assert!(matches!(route2, Route::Unanswered));
    assert_eq!(out2.header.rescode, ResultCode::NOERROR);
}

#[test]
fn block_list_lines() {
    assert!(matches!(parse_line("   "), LineRule::Skip));
    assert!(matches!(parse_line("! comment"), LineRule::Skip));
    assert!(matches!(parse_line("# comment"), LineRule::Skip));
    match parse_line("  ||ads.example^$third-party ") {
        LineRule::Block { host, subdomains } => {
            assert_eq!(host, "ads.example");
            assert!(subdomains);
        }
        _ => panic!("expected a block"),
    }
    match parse_line("@@||ok.example^") {
        LineRule::Allow { host } => assert_eq!(host, "ok.example"),
        _ => panic!("expected an allow"),
    }
    match parse_line("@@fine.example^") {
        LineRule::Allow { host } => assert_eq!(host, "fine.example"),
        _ => panic!("expected an allow"),
    }
    match parse_line("/^ad[0-9]+\\.com$/") {
        LineRule::Regex { source } => assert_eq!(source, "^ad[0-9]+\\.com$"),
        _ => panic!("expected a regex"),
    }
    match parse_line("127.0.0.1   tracker.example") {
        LineRule::Block { host, subdomains } => {
            assert_eq!(host, "tracker.example");
            assert!(!subdomains);
        }
        _ => panic!("expected a block"),
    }
    match parse_line("plain.example^") {
        LineRule::Block { host, subdomains } => {
            assert_eq!(host, "plain.example");
            assert!(!subdomains);
        }
        _ => panic!("expected a block"),
    }
    assert!(matches!(parse_line("two words"), LineRule::Unknown));
    assert!(matches!(parse_line("/"), LineRule::Unknown));
}

#[test]
fn lines_split_like_text_lines() {
    assert_eq!(split_lines("a\nb\n"), vec!["a".to_string(), "b".to_string()]);
    assert_eq!(split_lines("a\n\nb"), vec!["a".to_string(), "".to_string(), "b".to_string()]);
    assert!(split_lines("").is_empty());
}

#[test]
fn regex_rules_block_and_dedup() {
    let mut blocker = Blocker::new(vec![]);
    let n = blocker.parse_hosts("/^ad[0-9]+\\.com$/\n/^ad[0-9]+\\.com$/\n/(unclosed/\n");
    assert_eq!(n, 0);
    assert!(blocker.is_blocked("ad12.com"));
    assert!(!blocker.is_blocked("adx.com"));
    assert!(!blocker.is_blocked("bad12.comx"));
}

#[test]
fn exact_and_suffix_deny() {
    let mut blocker = Blocker::new(vec![]);
    blocker.parse_hosts("127.0.0.1 exact.example\nsuffix.example\n||wide.example^");
    assert!(blocker.is_blocked("exact.example"));
    assert!(!blocker.is_blocked("sub.exact.example"));
    assert!(blocker.is_blocked("suffix.example"));
    assert!(!blocker.is_blocked("a.suffix.example"));
    assert!(blocker.is_blocked("a.wide.example"));
    assert!(!blocker.is_blocked("example"));
}

#[test]
fn external_sync_replaces_only_external_hosts() {
    let mut rw = Rewrites::new();
    rw.add_rewrite(&RewriteRule { host: "static.local".to_string(), ip: IpAddress::V4(1) });
    rw.add_k8s_rewrites(vec![
        RewriteRule { host: "a.k8s".to_string(), ip: IpAddress::V4(2) },
        RewriteRule { host: "b.k8s".to_string(), ip: IpAddress::V4(3) },
    ]);
    assert!(rw.get_rewrite("a.k8s").is_some());
    rw.add_k8s_rewrites(vec![RewriteRule { host: "b.k8s".to_string(), ip: IpAddress::V4(4) }]);
    assert_eq!(rw.get_rewrite("a.k8s"), None);
    assert_eq!(rw.get_rewrite("b.k8s"), Some(DnsRecord::A { domain: "b.k8s".to_string(), addr: 4, ttl: 500 }));
    assert!(rw.get_rewrite("static.local").is_some());
    assert_eq!(rw.get_rewrites().len(), 2);
    rw.remove_rewrite("static.local");
    assert_eq!(rw.get_rewrite("static.local"), None);
}

fn answer(name: &str, addr: u32, ttl: u32) -> DnsPacket {
    let mut p = build_query(name, QueryType::A);
    p.header.response = true;
    p.answers.push(DnsRecord::A { domain: name.to_string(), addr, ttl });
    p
}

fn resolve(cache: &mut TtlCache, now: u64, upstream: &mut dyn FnMut(u32, &str) -> DnsPacket) -> (Result<DnsPacket, DnsError>, usize) {
    let mut res = Resolution::new(0xc6290004, "example.com", QueryType::A);
    let mut sent = 0;
    loop {
        match res.poll(cache, now) {
            Action::Send { server, qname, .. } => {
                sent += 1;
                let reply = upstream(server, &qname);
                if let Some(Action::Finish(r)) = res.on_reply(cache, now, Ok(reply)) {
                    return (r, sent);
                }
            }
            Action::Continue => {}
            Action::Finish(r) => return (r, sent),
        }
    }
}

#[test]
fn cache_hit_on_repeat() {
    let mut cache = TtlCache::new();
    let mut upstream = |_: u32, _: &str| answer("example.com", 0x5db8d822, 300);
    let (first, sent1) = resolve(&mut cache, 1000, &mut upstream);
    assert_eq!(sent1, 1);
    assert_eq!(first.unwrap().answers[0], DnsRecord::A { domain: "example.com".to_string(), addr: 0x5db8d822, ttl: 300 });
    let (second, sent2) = resolve(&mut cache, 1001, &mut upstream);
    assert_eq!(sent2, 0);
    assert_eq!(second.unwrap().answers.len(), 1);
    // Past the TTL the entry is stale.
    assert!(cache.get("example.com", 1300).is_none());
    assert!(cache.get("example.com", 1299).is_some());
}

#[test]
fn cache_skips_packets_without_answers() {
    let mut cache = TtlCache::new();
    let mut p = build_query("nx.example", QueryType::A);
    p.header.rescode = ResultCode::NXDOMAIN;
    cache.store("nx.example", 5, &p);
    assert!(cache.get("nx.example", 5).is_none());
}

#[test]
fn referral_with_glue_then_answer() {
    let mut cache = TtlCache::new();
    let mut upstream = |server: u32, _: &str| {
        if server == 0xc6290004 {
            let mut p = build_query("example.com", QueryType::A);
            p.authorities.push(DnsRecord::NS { domain: "com".to_string(), host: "a.gtld.net".to_string(), ttl: 10 });
            p.resources.push(DnsRecord::A { domain: "a.gtld.net".to_string(), addr: 0x0a0a0a0a, ttl: 10 });
            p
        } else {
            assert_eq!(server, 0x0a0a0a0a);
            answer("example.com", 7, 60)
        }
    };
    let (r, sent) = resolve(&mut cache, 0, &mut upstream);
    assert_eq!(sent, 2);
    assert_eq!(r.unwrap().answers[0], DnsRecord::A { domain: "example.com".to_string(), addr: 7, ttl: 60 });
}

#[test]
fn referral_without_glue_resolves_name_server() {
    let mut cache = TtlCache::new();
    let mut upstream = |server: u32, qname: &str| {
        if server == 0xc6290004 && qname == "example.com" {
            let mut p = build_query("example.com", QueryType::A);
            p.authorities.push(DnsRecord::NS { domain: "example.com".to_string(), host: "ns.other.net".to_string(), ttl: 10 });
            p
        } else if server == 0xc6290004 && qname == "ns.other.net" {
            answer("ns.other.net", 0x0b0b0b0b, 60)
        } else {
            assert_eq!(server, 0x0b0b0b0b);
            answer("example.com", 9, 60)
        }
    };
    let (r, sent) = resolve(&mut cache, 0, &mut upstream);
    assert_eq!(sent, 3);
    assert_eq!(r.unwrap().answers[0], DnsRecord::A { domain: "example.com".to_string(), addr: 9, ttl: 60 });
}

#[test]
fn referral_loop_stops_at_hop_ceiling() {
    let mut cache = TtlCache::new();
    let mut upstream = |_: u32, _: &str| {
        let mut p = build_query("example.com", QueryType::A);
        p.authorities.push(DnsRecord::NS { domain: "com".to_string(), host: "a.gtld.net".to_string(), ttl: 10 });
        p.resources.push(DnsRecord::A { domain: "a.gtld.net".to_string(), addr: 1, ttl: 10 });
        p
    };
    let (r, sent) = resolve(&mut cache, 0, &mut upstream);
    assert_eq!(sent, 16);
    assert_eq!(r.err(), Some(DnsError::HopLimitExceeded));
}

#[test]
fn classify_and_helpers() {
    let mut p = build_query("www.example.com", QueryType::A);
    assert_eq!(p.header.id, QUERY_ID);
    assert!(p.header.recursion_desired);
    p.authorities.push(DnsRecord::NS { domain: "example.com".to_string(), host: "ns1.example.com".to_string(), ttl: 1 });
    p.authorities.push(DnsRecord::NS { domain: "other.org".to_string(), host: "ns.other.org".to_string(), ttl: 1 });
    p.authorities.push(DnsRecord::NS { domain: "com".to_string(), host: "ns2.example.net".to_string(), ttl: 1 });
    p.resources.push(DnsRecord::A { domain: "ns2.example.net".to_string(), addr: 22, ttl: 1 });
    assert_eq!(p.get_ns("www.example.com").len(), 2);
    assert_eq!(p.get_resolved_ns("www.example.com"), Some(22));
    assert_eq!(p.get_unresolved_ns("www.example.com"), Some("ns1.example.com".to_string()));
    assert!(matches!(classify(&p, "www.example.com"), Referral::Glue(22)));
    p.header.rescode = ResultCode::NXDOMAIN;
    assert!(matches!(classify(&p, "www.example.com"), Referral::Answer));
    assert_eq!(p.get_random_a(), None);
}

#[test]
fn lookup_result_fills_response() {
    let req = request("example.com", QueryType::A);
    let mut out = begin_response(&req);
    finish_lookup(&mut out, &Ok(answer("example.com", 5, 50)));
    assert_eq!(out.header.rescode, ResultCode::NOERROR);
    assert_eq!(out.answers.len(), 1);
    let mut nx = begin_response(&req);
    let mut reply = build_query("example.com", QueryType::A);
    reply.header.rescode = ResultCode::NXDOMAIN;
    reply.authorities.push(DnsRecord::NS { domain: "com".to_string(), host: "x".to_string(), ttl: 1 });
    finish_lookup(&mut nx, &Ok(reply));
    assert_eq!(nx.header.rescode, ResultCode::NXDOMAIN);
    assert!(nx.authorities.is_empty());
    let mut fail = begin_response(&req);
    finish_lookup(&mut fail, &Err(DnsError::TransportError));
    assert_eq!(fail.header.rescode, ResultCode::SERVFAIL);
    assert_eq!(fail.questions.len(), 1);
}

#[test]
fn config_defaults_and_errors() {
    let s = ServerSettings::from_file(ServerSettingsFile { port: None, bind: None });
    assert_eq!(s.port, 53);
    assert_eq!(s.bind, "0.0.0.0");
    let none = ConfigFile { server: None, mirror: None, block: None, rewrites: vec![] };
    assert_eq!(Config::from_file(none).err(), Some(ConfigError::NoMirrorServers));
    let no_lists = ConfigFile {
        server: None,
        mirror: Some(MirrorSettingsFile { enabled: Some(false), servers: vec![] }),
        block: Some(BlockSettingsFile { enabled: None, lists: vec![] }),
        rewrites: vec![],
    };
    assert_eq!(Config::from_file(no_lists).err(), Some(ConfigError::NoBlockLists));
    let off = ConfigFile {
        server: Some(ServerSettingsFile { port: Some(5353), bind: Some("127.0.0.1".to_string()) }),
        mirror: Some(MirrorSettingsFile { enabled: Some(false), servers: vec![] }),
        block: Some(BlockSettingsFile { enabled: Some(false), lists: vec![] }),
        rewrites: vec![],
    };
    let c = Config::from_file(off).unwrap();
    assert_eq!(c.server.port, 5353);
    assert!(!c.mirror.enabled && !c.block.enabled);
}

#[test]
fn response_echoes_id_and_first_question() {
    let cfg = config(true, true, vec![]);
    let mut req = request("first.example", QueryType::A);
    req.questions.push(DnsQuestion::new("second.example".to_string(), QueryType::MX));
    let (out, route) = start_response(&cfg, &req, &Blocker::new(vec![]), &Rewrites::new());
    assert!(matches!(route, Some(Route::Lookup)));
    assert_eq!(out.header.id, 31337);
    assert!(out.header.response && out.header.recursion_desired && out.header.recursion_available);
    assert_eq!(out.questions, vec![DnsQuestion::new("first.example".to_string(), QueryType::A)]);
    let empty = DnsPacket::new();
    let (out2, route2) = start_response(&cfg, &empty, &Blocker::new(vec![]), &Rewrites::new());
    assert!(route2.is_none());
    assert_eq!(out2.header.rescode, ResultCode::FORMERR);
    assert!(out2.questions.is_empty());
}

#[test]
fn block_regex_equality_by_source() {
    let a = BlockRegex::new("^ads?\\.").unwrap();
    let b = BlockRegex::new("^ads?\\.").unwrap();
    let c = BlockRegex::new("^trk\\.").unwrap();
    assert!(a == b);
    assert!(a != c);
    assert!(a.is_match("ads.example"));
    assert!(!c.is_match("ads.example"));
    assert_eq!(a.source(), "^ads?\\.");
    assert!(BlockRegex::new("(").is_err());
}

#[test]
fn unicode_whitespace_is_trimmed() {
    match parse_line("\u{a0}\u{3000}||wide.example^\u{2003}") {
        LineRule::Block { host, subdomains } => {
            assert_eq!(host, "wide.example");
            assert!(subdomains);
        }
        _ => panic!("expected a block"),
    }
    assert!(matches!(parse_line("\u{2028}\u{85}"), LineRule::Skip));
}

#[test]
fn formerr_reply_bytes() {
    let cfg = config(true, true, vec![]);
    let data = [0x12u8, 0x34, 0x01, 0x00, 0, 0, 0, 0, 0, 0, 0, 0];
    let req = decode_request(&data).unwrap();
    let (mut out, route) = start_response(&cfg, &req, &Blocker::new(vec![]), &Rewrites::new());
    assert!(route.is_none());
    let bytes = encode_response(&mut out).unwrap();
    assert_eq!(bytes, vec![0x12, 0x34, 0x81, 0x81, 0, 0, 0, 0, 0, 0, 0, 0]);
}

#[test]
fn reply_to_compressed_request() {
    let cfg = config(true, false, vec![]);
    let mut data = vec![0x12u8, 0x34, 0x01, 0x00, 0, 2, 0, 0, 0, 0, 0, 0, 7];
    data.extend_from_slice(b"example");
    data.push(3);
    data.extend_from_slice(b"com");
    data.extend_from_slice(&[0, 0, 1, 0, 1, 0xC0, 0x0C, 0, 1, 0, 1]);
    let req = decode_request(&data).unwrap();
    assert_eq!(req.questions[1].name, "example.com");
    let (mut out, _) = start_response(&cfg, &req, &Blocker::new(vec![]), &Rewrites::new());
    let bytes = encode_response(&mut out).unwrap();
    assert!(bytes.len() <= 512);
    let back = decode_request(&bytes).unwrap();
    assert_eq!(back.header.id, 0x1234);
    assert!(back.header.response && back.header.recursion_desired && back.header.recursion_available);
    assert_eq!(back.questions, vec![DnsQuestion::new("example.com".to_string(), QueryType::A)]);
    assert_eq!(back, out);
}

#[test]
fn self_pointing_request_is_refused() {
    let data = [0x12u8, 0x34, 0x01, 0x00, 0, 1, 0, 0, 0, 0, 0, 0, 0xC0, 0x0C, 0, 1, 0, 1];
    assert_eq!(decode_request(&data).err(), Some(DnsError::JumpLimitExceeded));
}

#[test]
fn blocked_and_local_routes_from_start_response() {
    let cfg = config(true, true, vec![]);
    let mut blocker = Blocker::new(vec![]);
    blocker.parse_hosts("||ads.example^");
    let (out, route) = start_response(&cfg, &request("x.ads.example", QueryType::A), &blocker, &Rewrites::new());
    assert!(matches!(route, Some(Route::Blocked)));
    assert_eq!(out.header.rescode, ResultCode::NXDOMAIN);
    let (out2, route2) = start_response(&cfg, &request("nas.home.arpa", QueryType::A), &blocker, &Rewrites::new());
    assert!(matches!(route2, Some(Route::Local)));
    assert_eq!(out2.header.rescode, ResultCode::NXDOMAIN);
    assert!(out2.answers.is_empty());
}

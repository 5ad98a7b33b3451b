//! The per-request pipeline: rewrite, then block, then the local suffix,
//! then recursive lookup.
use vstd::prelude::*;
use crate::block::{blocked_by, Blocker, BlockerModel};
use crate::buffer::{BytePacketBuffer, DnsError, BUF_SIZE};
use crate::config::Config;
use crate::header::{DnsHeader, ResultCode};
use crate::packet::{copy_records, packet_at, DnsPacket, PacketModel};
use crate::record::{DnsQuestion, RecordModel};
use crate::rewrites::Rewrites;
use crate::text::{ends_with, has_suffix, string_of};

verus! {

/// Names under this suffix are never looked up.
pub open spec fn local_suffix() -> Seq<char> {
    seq!['.', 'h', 'o', 'm', 'e', '.', 'a', 'r', 'p', 'a']
}

/// How a question is answered.
pub enum Route {
    /// A rewrite record answers it.
    Rewrite,
    /// The blocker refuses it.
    Blocked,
    /// It is under the local suffix.
    Local,
    /// Ask the resolver.
    Lookup,
    /// No source is enabled.
    Unanswered,
}

pub enum RouteModel {
    Rewrite(RecordModel),
    Blocked,
    Local,
    Lookup,
    Unanswered,
}

/// The route for `name`: an exact rewrite first, then a block verdict when
/// blocking is on, then with the mirror on the local suffix or a lookup.
pub open spec fn route_spec(
    rewrites: Map<Seq<char>, RecordModel>,
    block_enabled: bool,
    blocker: BlockerModel,
    mirror_enabled: bool,
    name: Seq<char>,
) -> RouteModel {
    if rewrites.dom().contains(name) {
        RouteModel::Rewrite(rewrites[name])
    } else if block_enabled && blocked_by(blocker, name) {
        RouteModel::Blocked
    } else if mirror_enabled && has_suffix(name, local_suffix()) {
        RouteModel::Local
    } else if mirror_enabled {
        RouteModel::Lookup
    } else {
        RouteModel::Unanswered
    }
}

/// The result code a route leaves in the response.
pub open spec fn route_code(route: RouteModel) -> ResultCode {
    match route {
        RouteModel::Blocked => ResultCode::NXDOMAIN,
        RouteModel::Local => ResultCode::NXDOMAIN,
        _ => ResultCode::NOERROR,
    }
}

/// `r` is the route `m` describes.
pub open spec fn route_is(r: Route, m: RouteModel) -> bool {
    match m {
        RouteModel::Rewrite(_) => r is Rewrite,
        RouteModel::Blocked => r is Blocked,
        RouteModel::Local => r is Local,
        RouteModel::Lookup => r is Lookup,
        RouteModel::Unanswered => r is Unanswered,
    }
}

/// The response skeleton for a request: same id, response, recursion
/// desired and available, and the request's first question; `FORMERR` when
/// it has none.
pub fn begin_response(request: &DnsPacket) -> (r: DnsPacket)
    ensures
        r.header == (DnsHeader {
            id: request.header.id,
            response: true,
            recursion_desired: true,
            recursion_available: true,
            rescode: if request.questions@.len() == 0 {
                ResultCode::FORMERR
            } else {
                ResultCode::NOERROR
            },
            ..DnsHeader::new_spec()
        }),
        request.questions@.len() == 0 ==> r.model().questions.len() == 0,
        request.questions@.len() > 0 ==> r.model().questions == seq![request.model().questions[0]],
        r.answers@.len() == 0,
        r.authorities@.len() == 0,
        r.resources@.len() == 0,
{
    let mut packet = DnsPacket::new();
    packet.header.id = request.header.id;
    packet.header.recursion_desired = true;
    packet.header.recursion_available = true;
    packet.header.response = true;
    if request.questions.len() == 0 {
        packet.header.rescode = ResultCode::FORMERR;
    } else {
        let q = &request.questions[0];
        packet.questions.push(DnsQuestion { name: q.name.clone(), qtype: q.qtype });
        assert(packet.model().questions =~= seq![request.model().questions[0]]);
    }
    packet
}

fn has_local_suffix(name: &str) -> (r: bool)
    ensures
        r == has_suffix(name@, local_suffix()),
{
    let v = vec!['.', 'h', 'o', 'm', 'e', '.', 'a', 'r', 'p', 'a'];
    assert(v@ =~= local_suffix());
    let s = string_of(&v, 0, 10);
    assert(v@.subrange(0, 10) =~= v@);
    ends_with(name, s.as_str())
}

/// Answer `question` into `out` from the local sources, in order: a rewrite
/// (`NOERROR` and its record), a block (`NXDOMAIN`), the local suffix
/// (`NXDOMAIN`). Returns the route taken; on `Lookup` the caller runs the
/// resolver and passes its result to `finish_lookup`.
pub fn handle_query(
    config: &Config,
    question: &DnsQuestion,
    out: &mut DnsPacket,
    blocker: &Blocker,
    rewrites: &Rewrites,
) -> (r: Route)
    ensures
        ({
            let route = route_spec(
                rewrites.model(),
                config.block.enabled,
                blocker.model(),
                config.mirror.enabled,
                question.name@,
            );
            &&& final(out).header.id == old(out).header.id
            &&& final(out).model().questions == old(out).model().questions
            &&& final(out).model().authorities == old(out).model().authorities
            &&& final(out).model().resources == old(out).model().resources
            &&& match route {
                RouteModel::Rewrite(rec) => r is Rewrite && final(out).header == (DnsHeader {
                    rescode: ResultCode::NOERROR,
                    ..old(out).header
                }) && final(out).model().answers == old(out).model().answers.push(rec),
                RouteModel::Blocked => r is Blocked && final(out).header == (DnsHeader {
                    rescode: ResultCode::NXDOMAIN,
                    ..old(out).header
                }) && final(out).model().answers == old(out).model().answers,
                RouteModel::Local => r is Local && final(out).header == (DnsHeader {
                    rescode: ResultCode::NXDOMAIN,
                    ..old(out).header
                }) && final(out).model().answers == old(out).model().answers,
                RouteModel::Lookup => r is Lookup && final(out).header == old(out).header
                    && final(out).model().answers == old(out).model().answers,
                RouteModel::Unanswered => r is Unanswered && final(out).header == old(out).header
                    && final(out).model().answers == old(out).model().answers,
            }
        }),
{
    if let Some(rewrite) = rewrites.get_rewrite(question.name.as_str()) {
        out.header.rescode = ResultCode::NOERROR;
        let ghost before = out.model().answers;
        out.answers.push(rewrite);
        assert(out.model().answers =~= before.push(rewrite.model()));
        return Route::Rewrite;
    }
    if config.block.enabled && blocker.is_blocked(question.name.as_str()) {
        out.header.rescode = ResultCode::NXDOMAIN;
        return Route::Blocked;
    }
    if config.mirror.enabled {
        if has_local_suffix(question.name.as_str()) {
            out.header.rescode = ResultCode::NXDOMAIN;
            return Route::Local;
        }
        return Route::Lookup;
    }
    Route::Unanswered
}

/// Fill `out` from the resolver's result: its result code, and on
/// `NOERROR` its answers, authorities and additional records; `SERVFAIL`
/// when it failed.
pub fn finish_lookup(out: &mut DnsPacket, result: &Result<DnsPacket, DnsError>)
    ensures
        final(out).model().questions == old(out).model().questions,
        match result {
            Ok(p) => final(out).header == (DnsHeader { rescode: p.header.rescode, ..old(out).header })
                && if p.header.rescode == ResultCode::NOERROR {
                final(out).model().answers == old(out).model().answers + p.model().answers
                    && final(out).model().authorities == old(out).model().authorities
                    + p.model().authorities && final(out).model().resources
                    == old(out).model().resources + p.model().resources
            } else {
                final(out).model().answers == old(out).model().answers
                    && final(out).model().authorities == old(out).model().authorities
                    && final(out).model().resources == old(out).model().resources
            },
            Err(_) => final(out).header == (DnsHeader {
                rescode: ResultCode::SERVFAIL,
                ..old(out).header
            }) && final(out).model().answers == old(out).model().answers
                && final(out).model().authorities == old(out).model().authorities
                && final(out).model().resources == old(out).model().resources,
        },
{
    match result {
        Ok(p) => {
            out.header.rescode = p.header.rescode;
            if p.header.rescode == ResultCode::NOERROR {
                let mut a = copy_records(&p.answers);
                let mut b = copy_records(&p.authorities);
                let mut c = copy_records(&p.resources);
                let ghost (a0, b0, c0) = (out.answers@, out.authorities@, out.resources@);
                out.answers.append(&mut a);
                out.authorities.append(&mut b);
                out.resources.append(&mut c);
                assert(out.model().answers =~= old(out).model().answers + p.model().answers);
                assert(out.model().authorities =~= old(out).model().authorities + p.model().authorities);
                assert(out.model().resources =~= old(out).model().resources + p.model().resources);
            }
        },
        Err(_) => {
            out.header.rescode = ResultCode::SERVFAIL;
        },
    }
}

/// Answer a parsed request from the local sources: the response skeleton
/// with the request's first question, answered by `handle_query`. With no
/// question the response is `FORMERR` and nothing is consulted.
pub fn start_response(
    config: &Config,
    request: &DnsPacket,
    blocker: &Blocker,
    rewrites: &Rewrites,
) -> (r: (DnsPacket, Option<Route>))
    ensures
        r.0.header == (DnsHeader {
            id: request.header.id,
            response: true,
            recursion_desired: true,
            recursion_available: true,
            rescode: if request.questions@.len() == 0 {
                ResultCode::FORMERR
            } else {
                route_code(
                    route_spec(
                        rewrites.model(),
                        config.block.enabled,
                        blocker.model(),
                        config.mirror.enabled,
                        request.questions@[0].name@,
                    ),
                )
            },
            ..DnsHeader::new_spec()
        }),
        request.questions@.len() == 0 ==> r.1 is None && r.0.model().questions.len() == 0
            && r.0.model().answers.len() == 0,
        request.questions@.len() > 0 ==> ({
            let route = route_spec(
                rewrites.model(),
                config.block.enabled,
                blocker.model(),
                config.mirror.enabled,
                request.questions@[0].name@,
            );
            &&& r.0.model().questions == seq![request.model().questions[0]]
            &&& (r.1 matches Some(x) && route_is(x, route))
            &&& r.0.model().answers == match route {
                RouteModel::Rewrite(rec) => seq![rec],
                _ => Seq::<RecordModel>::empty(),
            }
        }),
        r.0.model().authorities.len() == 0 && r.0.model().resources.len() == 0,
        r.0.header.wf(),
{
    let mut out = begin_response(request);
    if request.questions.len() == 0 {
        return (out, None);
    }
    let ghost a0 = out.model().answers;
    assert(a0 =~= Seq::<RecordModel>::empty());
    let route = handle_query(config, &request.questions[0], &mut out, blocker, rewrites);
    proof {
        let rt = route_spec(
            rewrites.model(),
            config.block.enabled,
            blocker.model(),
            config.mirror.enabled,
            request.questions@[0].name@,
        );
        if let RouteModel::Rewrite(rec) = rt {
            assert(a0.push(rec) =~= seq![rec]);
        }
    }
    (out, Some(route))
}

/// Parse a request datagram of at most 512 bytes.
pub fn decode_request(data: &[u8]) -> (r: Result<DnsPacket, DnsError>)
    ensures
        data@.len() > BUF_SIZE ==> r == Err::<DnsPacket, DnsError>(DnsError::EndOfBuffer),
        data@.len() <= BUF_SIZE ==> exists|buf: Seq<u8>| #![auto]
            buf.len() == BUF_SIZE && buf.subrange(0, data@.len() as int) == data@ && (forall|i: int|
                data@.len() <= i < BUF_SIZE ==> buf[i] == 0u8) && match packet_at(buf, 0) {
                Ok(m) => r matches Ok(p) && p.model() == m,
                Err(e) => r == Err::<DnsPacket, DnsError>(e),
            },
{
    let mut buffer = BytePacketBuffer::from_bytes(data)?;
    DnsPacket::from_buffer(&mut buffer)
}

/// Serialize a response into a datagram.
pub fn encode_response(packet: &mut DnsPacket) -> (r: Result<Vec<u8>, DnsError>)
    requires
        old(packet).header.wf(),
    ensures
        final(packet).model().questions == old(packet).model().questions,
        final(packet).model().answers == old(packet).model().answers,
        final(packet).model().authorities == old(packet).model().authorities,
        final(packet).model().resources == old(packet).model().resources,
        r is Ok ==> final(packet).header == (DnsHeader {
            questions: old(packet).questions@.len() as u16,
            answers: old(packet).answers@.len() as u16,
            authoritative_entries: old(packet).authorities@.len() as u16,
            resource_entries: old(packet).resources@.len() as u16,
            ..old(packet).header
        }),
        r is Err ==> final(packet).header == old(packet).header,
        r matches Ok(v) ==> v@ == crate::packet::packet_bytes(final(packet).model()) && v@.len()
            <= BUF_SIZE,
        !crate::packet::packet_names_ok(old(packet).model()) ==> r == Err::<Vec<u8>, DnsError>(DnsError::MalformedPacket),
        crate::packet::packet_names_ok(old(packet).model()) && crate::packet::packet_bytes(old(packet).model()).len() <= BUF_SIZE ==> r is Ok,
{
    let mut buffer = BytePacketBuffer::new();
    packet.write(&mut buffer)?;
    let len = buffer.pos();
    let r = buffer.get_range(0, len);
    proof {
        let b = crate::packet::packet_bytes(packet.model());
        assert(buffer.buf@.subrange(0, len as int) =~= b);
    }
    r
}

/// With a rewrite for the name, the route is that rewrite whatever the
/// blocker holds and whatever is enabled: the blocker, the cache and the
/// resolver are never consulted.
pub proof fn lemma_rewrite_precedence(
    rewrites: Map<Seq<char>, RecordModel>,
    block_enabled: bool,
    blocker: BlockerModel,
    mirror_enabled: bool,
    name: Seq<char>,
)
    requires
        rewrites.dom().contains(name),
    ensures
        route_spec(rewrites, block_enabled, blocker, mirror_enabled, name) == RouteModel::Rewrite(
            rewrites[name],
        ),
{
}

} // verus!

use mindns::buffer::{BytePacketBuffer, DnsError};
use mindns::header::{DnsHeader, QueryType, ResultCode};
use mindns::packet::DnsPacket;
use mindns::pipeline::{begin_response, decode_request, encode_response};
use mindns::record::{DnsQuestion, DnsRecord};

fn header_with_counts(id: u16, qd: u16, an: u16) -> Vec<u8> {
    vec![(id >> 8) as u8, id as u8, 0x01, 0x00, 0, qd as u8, 0, an as u8, 0, 0, 0, 0]
}

#[test]
fn u16_and_u32_are_big_endian() {
    let mut b = BytePacketBuffer::new();
    b.write_u16(0x1234).unwrap();
    b.write_u32(0xdeadbeef).unwrap();
    assert_eq!(b.pos(), 6);
    assert_eq!(b.get_range(0, 6).unwrap(), vec![0x12, 0x34, 0xde, 0xad, 0xbe, 0xef]);
    b.seek(0).unwrap();
    assert_eq!(b.read_u16().unwrap(), 0x1234);
    assert_eq!(b.read_u32().unwrap(), 0xdeadbeef);
}

#[test]
fn buffer_end_is_reported() {
    let mut b = BytePacketBuffer::new();
    b.seek(511).unwrap();
    assert_eq!(b.read_u16(), Err(DnsError::EndOfBuffer));
    assert_eq!(b.pos(), 511);
    assert_eq!(b.read_u8(), Ok(0));
    assert_eq!(b.read_u8(), Err(DnsError::EndOfBuffer));
    assert_eq!(b.seek(513), Err(DnsError::EndOfBuffer));
    assert_eq!(BytePacketBuffer::from_bytes(&[0u8; 513]).err(), Some(DnsError::EndOfBuffer));
}

#[test]
fn qname_writes_labels() {
    let mut b = BytePacketBuffer::new();
    b.write_qname("www.example.com").unwrap();
    let mut expect = vec![3u8];
    expect.extend_from_slice(b"www");
    expect.push(7);
    expect.extend_from_slice(b"example");
    expect.push(3);
    expect.extend_from_slice(b"com");
    expect.push(0);
    assert_eq!(b.pos(), expect.len());
    assert_eq!(b.get_range(0, expect.len()).unwrap(), expect);
    b.seek(0).unwrap();
    assert_eq!(b.read_qname().unwrap(), "www.example.com");
    assert_eq!(b.pos(), 17);
}

#[test]
fn qname_root_is_one_zero_byte() {
    let mut b = BytePacketBuffer::new();
    b.write_qname("").unwrap();
    assert_eq!(b.pos(), 1);
    b.seek(0).unwrap();
    assert_eq!(b.read_qname().unwrap(), "");
}

#[test]
fn qname_rejects_bad_labels() {
    let mut b = BytePacketBuffer::new();
    let long = "a".repeat(64);
    assert_eq!(b.write_qname(&long), Err(DnsError::MalformedPacket));
    assert_eq!(b.write_qname("a..b"), Err(DnsError::MalformedPacket));
    assert_eq!(b.write_qname(".a"), Err(DnsError::MalformedPacket));
    assert_eq!(b.write_qname("caf\u{e9}.fr"), Err(DnsError::MalformedPacket));
    let sixty_three = "b".repeat(63);
    assert!(b.write_qname(&sixty_three).is_ok());
    let too_long = vec!["abcdefghi"; 26].join(".");
    assert_eq!(too_long.len(), 259);
    assert_eq!(b.write_qname(&too_long), Err(DnsError::MalformedPacket));
    assert_eq!(b.pos(), 65);
}

#[test]
fn name_compression_decode() {
    // Two A answers; the second's owner is a pointer to offset 12.
    let mut data = header_with_counts(7, 0, 2);
    data.extend_from_slice(&[7]);
    data.extend_from_slice(b"example");
    data.extend_from_slice(&[3]);
    data.extend_from_slice(b"com");
    data.push(0);
    data.extend_from_slice(&[0, 1, 0, 1, 0, 0, 0, 60, 0, 4, 1, 2, 3, 4]);
    data.extend_from_slice(&[0xC0, 12]);
    data.extend_from_slice(&[0, 1, 0, 1, 0, 0, 0, 60, 0, 4, 5, 6, 7, 8]);
    let p = decode_request(&data).unwrap();
    assert_eq!(p.answers.len(), 2);
    assert_eq!(p.answers[0], DnsRecord::A { domain: "example.com".to_string(), addr: 0x01020304, ttl: 60 });
    assert_eq!(p.answers[1], DnsRecord::A { domain: "example.com".to_string(), addr: 0x05060708, ttl: 60 });
}

#[test]
fn pointer_cursor_stops_after_pointer() {
    let mut b = BytePacketBuffer::new();
    b.write_qname("a.b").unwrap();
    b.write_u8(0xC0).unwrap();
    b.write_u8(0).unwrap();
    b.seek(5).unwrap();
    assert_eq!(b.read_qname().unwrap(), "a.b");
    assert_eq!(b.pos(), 7);
}

#[test]
fn pointer_loop_hits_jump_limit() {
    let mut b = BytePacketBuffer::new();
    b.write_u8(0xC0).unwrap();
    b.write_u8(0).unwrap();
    b.seek(0).unwrap();
    assert_eq!(b.read_qname(), Err(DnsError::JumpLimitExceeded));
}

#[test]
fn five_hops_are_allowed_six_are_not() {
    // Offsets 0,2,4,6,8 each point to the next; offset 10 holds "x".
    let mut five = BytePacketBuffer::new();
    for k in 0..5u8 {
        five.write_u8(0xC0).unwrap();
        five.write_u8(2 * k + 2).unwrap();
    }
    five.write_qname("x").unwrap();
    five.seek(0).unwrap();
    assert_eq!(five.read_qname().unwrap(), "x");
    assert_eq!(five.pos(), 2);

    let mut six = BytePacketBuffer::new();
    for k in 0..6u8 {
        six.write_u8(0xC0).unwrap();
        six.write_u8(2 * k + 2).unwrap();
    }
    six.write_qname("x").unwrap();
    six.seek(0).unwrap();
    assert_eq!(six.read_qname(), Err(DnsError::JumpLimitExceeded));
}

#[test]
fn header_flag_bytes() {
    let mut h = DnsHeader::new();
    h.id = 0xabcd;
    h.response = true;
    h.opcode = 2;
    h.authoritative_answer = true;
    h.truncated_message = false;
    h.recursion_desired = true;
    h.recursion_available = true;
    h.rescode = ResultCode::NXDOMAIN;
    h.questions = 1;
    let mut b = BytePacketBuffer::new();
    h.write(&mut b).unwrap();
    assert_eq!(
        b.get_range(0, 12).unwrap(),
        vec![0xab, 0xcd, 0x80 | (2 << 3) | 0x04 | 0x01, 0x80 | 3, 0, 1, 0, 0, 0, 0, 0, 0]
    );
    b.seek(0).unwrap();
    assert_eq!(DnsHeader::read(&mut b).unwrap(), h);
}

fn sample_packet() -> DnsPacket {
    let mut p = DnsPacket::new();
    p.header.id = 4242;
    p.header.response = true;
    p.header.recursion_desired = true;
    p.questions.push(DnsQuestion::new("example.com".to_string(), QueryType::MX));
    p.answers.push(DnsRecord::MX { domain: "example.com".to_string(), priority: 10, host: "mail.example.com".to_string(), ttl: 3600 });
    p.answers.push(DnsRecord::AAAA { domain: "example.com".to_string(), addr: 0x2001_0db8_0000_0000_0000_0000_0000_0001, ttl: 30 });
    p.authorities.push(DnsRecord::NS { domain: "com".to_string(), host: "a.gtld.net".to_string(), ttl: 172800 });
    p.authorities.push(DnsRecord::CNAME { domain: "www.example.com".to_string(), host: "example.com".to_string(), ttl: 5 });
    p.resources.push(DnsRecord::A { domain: "a.gtld.net".to_string(), addr: 0xc0051e1e, ttl: 172800 });
    p.resources.push(DnsRecord::UNKNOWN { domain: "example.com".to_string(), qtype: 16, data_len: 3, ttl: 9 });
    p
}

#[test]
fn packet_round_trip() {
    let mut p = sample_packet();
    let bytes = encode_response(&mut p).unwrap();
    assert_eq!(p.header.questions, 1);
    assert_eq!(p.header.answers, 2);
    assert_eq!(p.header.authoritative_entries, 2);
    assert_eq!(p.header.resource_entries, 2);
    let back = decode_request(&bytes).unwrap();
    assert_eq!(back, p);
}

#[test]
fn packet_with_bad_name_is_refused() {
    let mut p = sample_packet();
    p.answers.push(DnsRecord::A { domain: "bad..name".to_string(), addr: 1, ttl: 1 });
    assert_eq!(encode_response(&mut p), Err(DnsError::MalformedPacket));
}

#[test]
fn packet_too_large_is_refused() {
    let mut p = DnsPacket::new();
    for _ in 0..40 {
        p.answers.push(DnsRecord::A { domain: "abcdefghijklmnop.example.com".to_string(), addr: 1, ttl: 1 });
    }
    assert_eq!(encode_response(&mut p), Err(DnsError::EndOfBuffer));
}

#[test]
fn malformed_request_gets_formerr() {
    let data = header_with_counts(0x5151, 0, 0);
    let req = decode_request(&data).unwrap();
    let mut resp = begin_response(&req);
    assert_eq!(resp.header.rescode, ResultCode::FORMERR);
    assert_eq!(resp.header.id, 0x5151);
    assert!(resp.header.response);
    let bytes = encode_response(&mut resp).unwrap();
    assert_eq!(bytes.len(), 12);
    assert_eq!(&bytes[4..12], &[0, 0, 0, 0, 0, 0, 0, 0]);
    assert_eq!(bytes[3] & 0x0f, 1);
    assert_eq!(&bytes[0..2], &[0x51, 0x51]);
}

#[test]
fn truncated_request_is_end_of_buffer() {
    let mut data = header_with_counts(1, 1, 0);
    data.extend_from_slice(&[3]);
    data.extend_from_slice(b"abc");
    // 512-byte zero padding follows, so the name ends but is followed by
    // type and class zeros: the parse succeeds on a full buffer.
    let p = decode_request(&data).unwrap();
    assert_eq!(p.questions[0].name, "abc");
    assert_eq!(p.questions[0].qtype, QueryType::UNKNOWN(0));
    let mut full = vec![0u8; 512];
    full[5] = 1;
    full[510] = 5;
    full[511] = b'a';
    let mut b = BytePacketBuffer::from_bytes(&full).unwrap();
    b.seek(510).unwrap();
    assert_eq!(b.read_qname(), Err(DnsError::EndOfBuffer));
}

#[test]
fn query_type_numbers() {
    assert_eq!(QueryType::from_num(1), QueryType::A);
    assert_eq!(QueryType::from_num(28), QueryType::AAAA);
    assert_eq!(QueryType::from_num(99), QueryType::UNKNOWN(99));
    assert_eq!(QueryType::MX.to_num(), 15);
    assert_eq!(ResultCode::from_num(9), ResultCode::NOERROR);
    assert_eq!(ResultCode::REFUSED.to_num(), 5);
}

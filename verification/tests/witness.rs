use hickory_proto::op::{Message, MessageType, OpCode, ResponseCode};
use hickory_proto::rr::rdata::A;
use hickory_proto::rr::{Name, RData, Record};
use hickory_proto::serialize::binary::{BinDecodable, BinEncodable};
use intent_runtime::assurance::{
    Endpoint, Expectation, IpFamily, Outcome, Primitive, ProbeSource, ProbeSpec, ResourceLimits,
};
use intent_runtime::dns::{dns_request, judge_dns_reply, names_eq, DnsName};
use intent_runtime::net::{parse_ip, IpAddr};
use intent_runtime::protocol::DeviceBinding;
use intent_runtime::witness::{
    checksum, echo_request, header_bytes, http_authority, http_failure, http_status_outcome, io_outcome,
    retryable, validate, validate_icmp_reply, IoFailure,
};

fn spec(primitive: Primitive, endpoint: Option<(IpAddr, u16)>, expectation: Expectation) -> ProbeSpec {
    ProbeSpec {
        id: "test".into(),
        primitive,
        device: DeviceBinding { device_id: "d".into(), profile_digest: "p".into(), fencing_generation: 1 },
        source: ProbeSource {
            witness_id: "w".into(),
            location: "local".into(),
            bind_address: parse_ip("127.0.0.1").unwrap(),
            interface: None,
        },
        endpoint: endpoint.map(|(address, port)| Endpoint { address, port: Some(port), family: IpFamily::V4 }),
        expectation,
        limits: ResourceLimits { timeout_ms: 100, max_response_bytes: 4096, max_attempts: 1 },
        interval_ms: 100,
        depends_on: vec![],
        claims: vec!["claim".into()],
    }
}

fn localhost() -> IpAddr {
    parse_ip("127.0.0.1").unwrap()
}

#[test]
fn icmp_reply_validator_rejects_corruption() {
    let id = 0x1234;
    let sequence = 0x5678;
    let payload = [9, 8, 7];
    let mut packet = vec![0, 0, 0, 0, 0x12, 0x34, 0x56, 0x78];
    packet.extend_from_slice(&payload);
    assert_eq!(
        validate_icmp_reply(IpFamily::V4, localhost(), Some(localhost()), &packet, 0, id, sequence, &payload).0,
        Outcome::Success
    );
    packet[7] ^= 1;
    assert_eq!(
        validate_icmp_reply(IpFamily::V4, localhost(), Some(localhost()), &packet, 0, id, sequence, &payload).0,
        Outcome::MalformedResponse
    );
    let invalid_ipv4 = [0x41; 20];
    assert_eq!(
        validate_icmp_reply(IpFamily::V4, localhost(), Some(localhost()), &invalid_ipv4, 0, id, sequence, &payload).0,
        Outcome::MalformedResponse
    );
}

#[test]
fn rejects_missing_required_network_binding_before_effect() {
    let mut s = spec(Primitive::TcpConnect, None, Expectation::TcpConnected);
    assert!(validate(&s).is_err());
    s.limits.max_attempts = 0;
    assert!(validate(&s).is_err());
    s.limits.max_attempts = 1;
    s.endpoint = Some(Endpoint { address: localhost(), port: Some(9), family: IpFamily::V4 });
    s.source.interface = Some("lo".into());
    assert!(validate(&s).is_err());
    s.source.interface = None;
    s.source.bind_address = parse_ip("0.0.0.0").unwrap();
    assert!(validate(&s).is_err());
    s.source.bind_address = localhost();
    s.limits.max_attempts = 4;
    assert!(validate(&s).is_err());
}

#[test]
fn validate_accepts_a_bound_tcp_probe_and_refuses_broadcast() {
    let mut s = spec(Primitive::TcpConnect, Some((localhost(), 9)), Expectation::TcpConnected);
    assert_eq!(validate(&s), Ok(()));
    s.endpoint = Some(Endpoint { address: IpAddr::V4(255, 255, 255, 255), port: Some(9), family: IpFamily::V4 });
    assert!(validate(&s).is_err());
    s.endpoint = Some(Endpoint { address: localhost(), port: Some(9), family: IpFamily::V4 });
    s.source.bind_address = IpAddr::V4(255, 255, 255, 255);
    assert!(validate(&s).is_err());
}

#[test]
fn icmp_probe_needs_room_for_the_echo() {
    let mut s = spec(Primitive::Icmp, None, Expectation::IcmpEcho);
    s.endpoint = Some(Endpoint { address: localhost(), port: None, family: IpFamily::V4 });
    s.limits.max_response_bytes = 24;
    assert_eq!(validate(&s), Ok(()));
    s.limits.max_response_bytes = 23;
    assert!(validate(&s).is_err());
}

#[test]
fn icmp_reply_with_ipv4_header_and_wrong_peer() {
    let payload = [1, 2];
    let mut packet = vec![0x45];
    packet.extend_from_slice(&[0; 19]);
    packet.extend_from_slice(&[0, 0, 0, 0, 0, 1, 0, 2, 1, 2]);
    assert_eq!(
        validate_icmp_reply(IpFamily::V4, localhost(), Some(localhost()), &packet, 0, 1, 2, &payload).0,
        Outcome::Success
    );
    assert_eq!(
        validate_icmp_reply(IpFamily::V4, localhost(), Some(IpAddr::V4(127, 0, 0, 2)), &packet, 0, 1, 2, &payload).0,
        Outcome::MalformedResponse
    );
    assert_eq!(
        validate_icmp_reply(IpFamily::V4, localhost(), None, &packet, 0, 1, 2, &payload).0,
        Outcome::MalformedResponse
    );
    let short = [0x46, 0, 0];
    assert_eq!(
        validate_icmp_reply(IpFamily::V4, localhost(), Some(localhost()), &short, 0, 1, 2, &payload).0,
        Outcome::MalformedResponse
    );
}

#[test]
fn internet_checksum_exact_values() {
    assert_eq!(checksum(&[8, 0, 0, 0, 0x12, 0x34, 0x56, 0x78]), 0x8f53);
    assert_eq!(checksum(&[0x01]), 0xfeff);
    assert_eq!(checksum(&[0xff, 0xff, 0xff, 0xff]), 0x0000);
    assert_eq!(checksum(&[]), 0xffff);
}

#[test]
fn echo_request_carries_a_checksum_only_over_ipv4() {
    let v4 = echo_request(IpFamily::V4, 0x1234, 0x5678, &[9, 8, 7]);
    assert_eq!(v4.len(), 11);
    assert_eq!(&v4[0..2], &[8, 0]);
    assert_eq!(&v4[4..], &[0x12, 0x34, 0x56, 0x78, 9, 8, 7]);
    assert_eq!(checksum(&v4), 0);
    let v6 = echo_request(IpFamily::V6, 0x1234, 0x5678, &[9, 8, 7]);
    assert_eq!(v6, vec![128, 0, 0, 0, 0x12, 0x34, 0x56, 0x78, 9, 8, 7]);
}

#[test]
fn io_failures_map_to_distinct_outcomes() {
    assert_eq!(io_outcome(IoFailure::ConnectionRefused), Outcome::Refused);
    assert_eq!(io_outcome(IoFailure::TimedOut), Outcome::Timeout);
    assert_eq!(io_outcome(IoFailure::WouldBlock), Outcome::Timeout);
    assert_eq!(io_outcome(IoFailure::PermissionDenied), Outcome::Unavailable);
    assert_eq!(io_outcome(IoFailure::HostUnreachable), Outcome::Unreachable);
    assert_eq!(io_outcome(IoFailure::Other), Outcome::Unreachable);
    assert!(retryable(Outcome::Timeout));
    assert!(retryable(Outcome::Unreachable));
    assert!(!retryable(Outcome::Refused));
    assert!(!retryable(Outcome::Success));
}

#[test]
fn http_failures_are_classified() {
    assert_eq!(http_failure(true, false, "https", "TLS handshake"), Outcome::Timeout);
    assert_eq!(http_failure(false, false, "https", "invalid peer Certificate"), Outcome::TlsFailure);
    assert_eq!(http_failure(false, false, "http", "invalid peer certificate"), Outcome::Unreachable);
    assert_eq!(http_failure(false, true, "https", "bad chunk"), Outcome::MalformedResponse);
    assert_eq!(http_failure(false, false, "https", "connection reset"), Outcome::Unreachable);
}

#[test]
fn http_host_must_be_the_concrete_endpoint() {
    assert_eq!(http_authority("127.0.0.1", localhost()).unwrap(), "127.0.0.1");
    assert_eq!(http_authority("127.0.0.2", localhost()).unwrap_err().0, Outcome::Unsupported);
    let v6 = parse_ip("::1").unwrap();
    assert_eq!(http_authority("::1", v6).unwrap(), "[::1]");
    assert_eq!(http_authority("router.test", localhost()).unwrap(), "router.test");
    assert_eq!(http_status_outcome(200, 200), Outcome::Success);
    assert_eq!(http_status_outcome(302, 200), Outcome::Violation);
}

#[test]
fn header_bytes_count_the_wire_form() {
    assert_eq!(header_bytes(&[]), 2);
    assert_eq!(header_bytes(&[(4, 5), (12, 3)]), 2 + 13 + 19);
    assert_eq!(header_bytes(&[(usize::MAX - 8, 4), (1, 1)]), usize::MAX);
}

fn dns_response(request_bytes: &[u8], code: ResponseCode, truncated: bool, requested_answer: bool) -> Vec<u8> {
    let request = Message::from_bytes(request_bytes).unwrap();
    let mut response = Message::new();
    response
        .set_id(request.id())
        .set_message_type(MessageType::Response)
        .set_op_code(OpCode::Query)
        .set_response_code(code)
        .set_truncated(truncated)
        .add_query(request.queries()[0].clone());
    let owner = if requested_answer {
        request.queries()[0].name().clone()
    } else {
        Name::from_ascii("other.test.").unwrap()
    };
    response.add_answer(Record::from_rdata(owner, 30, RData::A(A::new(127, 0, 0, 1))));
    response.to_bytes().unwrap()
}

#[test]
fn dns_reply_outcomes_are_distinct() {
    let request = dns_request("router.test.", "A", 0x4242).unwrap();
    assert_eq!(request.record_type, 1);
    let wanted = vec!["127.0.0.1".to_string()];
    let ok = dns_response(&request.bytes, ResponseCode::NoError, false, true);
    assert_eq!(judge_dns_reply(&ok, 0x4242, &request.name, 1, &wanted).0, Outcome::Success);
    assert_eq!(judge_dns_reply(&ok, 0x4243, &request.name, 1, &wanted).0, Outcome::MalformedResponse);
    let other = vec!["127.0.0.9".to_string()];
    assert_eq!(judge_dns_reply(&ok, 0x4242, &request.name, 1, &other).0, Outcome::Violation);
    let nx = dns_response(&request.bytes, ResponseCode::NXDomain, false, true);
    assert_eq!(judge_dns_reply(&nx, 0x4242, &request.name, 1, &wanted).0, Outcome::DnsNxDomain);
    let fail = dns_response(&request.bytes, ResponseCode::ServFail, false, true);
    assert_eq!(judge_dns_reply(&fail, 0x4242, &request.name, 1, &wanted).0, Outcome::DnsServerFailure);
    let truncated = dns_response(&request.bytes, ResponseCode::NoError, true, true);
    assert_eq!(judge_dns_reply(&truncated, 0x4242, &request.name, 1, &wanted).0, Outcome::MalformedResponse);
    let unrelated = dns_response(&request.bytes, ResponseCode::NoError, false, false);
    assert_eq!(judge_dns_reply(&unrelated, 0x4242, &request.name, 1, &wanted).0, Outcome::Violation);
    assert_eq!(judge_dns_reply(&[1, 2, 3], 0x4242, &request.name, 1, &wanted).0, Outcome::MalformedResponse);
}

#[test]
fn dns_request_refuses_unsupported_names_and_types() {
    assert_eq!(dns_request("router.test.", "a", 1).err().unwrap().0, Outcome::Unsupported);
    assert_eq!(dns_request("router.test.", "NOPE", 1).err().unwrap().0, Outcome::Unsupported);
    let long_label = format!("{}.test.", "x".repeat(70));
    assert_eq!(dns_request(&long_label, "A", 1).err().unwrap().0, Outcome::Unsupported);
    let q = dns_request("Router.Test.", "AAAA", 9).unwrap();
    assert_eq!(q.record_type, 28);
    let decoded = Message::from_bytes(&q.bytes).unwrap();
    assert_eq!(decoded.id(), 9);
    assert!(!decoded.recursion_desired());
}

#[test]
fn dns_names_compare_without_case() {
    let a = DnsName { labels: vec![b"Router".to_vec(), b"test".to_vec()], fqdn: true };
    let b = DnsName { labels: vec![b"router".to_vec(), b"TEST".to_vec()], fqdn: true };
    let c = DnsName { labels: vec![b"router".to_vec(), b"test".to_vec()], fqdn: false };
    assert!(names_eq(&a, &b));
    assert!(!names_eq(&a, &c));
}

#[test]
fn packet_carrying_its_checksum_verifies_to_zero() {
    let mut packet = vec![8u8, 0, 0, 0, 0x12, 0x34, 0x00, 0x01, 0xde, 0xad, 0xbe];
    let c = checksum(&packet);
    packet[2] = (c >> 8) as u8;
    packet[3] = c as u8;
    assert_eq!(checksum(&packet), 0);
}

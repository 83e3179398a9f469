use dnsward::dns_codec::{
    encode_name, encode_rr, parse_name, parse_rr, DnsMessage, Question, RData, ResourceRecord,
    CLASS_IN,
};
use dnsward::{qtype, rcode};

fn make_query(id: u16, name: &str, qtype: u16) -> Vec<u8> {
    let mut buf = Vec::new();
    buf.extend_from_slice(&id.to_be_bytes());
    buf.extend_from_slice(&0x0100u16.to_be_bytes()); // RD=1
    buf.extend_from_slice(&1u16.to_be_bytes()); // qdcount
    buf.extend_from_slice(&[0, 0, 0, 0, 0, 0]); // an/ns/ar
    for label in name.split('.') {
        buf.push(label.len() as u8);
        buf.extend_from_slice(label.as_bytes());
    }
    buf.push(0);
    buf.extend_from_slice(&qtype.to_be_bytes());
    buf.extend_from_slice(&CLASS_IN.to_be_bytes());
    buf
}

/// A packet with one question whose bytes are `question`.
fn with_question(question: &[u8]) -> Vec<u8> {
    let mut buf = vec![0, 1, 1, 0, 0, 1, 0, 0, 0, 0, 0, 0];
    buf.extend_from_slice(question);
    buf
}

fn error_of(buf: &[u8]) -> String {
    DnsMessage::parse(buf).unwrap_err().to_string()
}

#[test]
fn test_roundtrip_nxdomain() {
    // Build a fake query
    let q = vec![
        0x12, 0x34, // id
        0x01, 0x00, // flags: QR=0 RD=1
        0x00, 0x01, // qdcount=1
        0x00, 0x00, 0x00, 0x00, 0x00, 0x00, // an/ns/ar
        // question: example.com A IN
        7, b'e', b'x', b'a', b'm', b'p', b'l', b'e',
        3, b'c', b'o', b'm',
        0,          // end
        0x00, 0x01, // QTYPE A
        0x00, 0x01, // QCLASS IN
    ];
    let msg = DnsMessage::parse(&q).unwrap();
    assert!(msg.is_query());
    assert_eq!(msg.questions[0].name, "example.com");
    let resp = msg.nxdomain();
    let resp_msg = DnsMessage::parse(&resp).unwrap();
    assert_eq!(resp_msg.id, 0x1234);
    assert_eq!(resp_msg.flags & 0x000f, 3); // NXDOMAIN
}

#[test]
fn test_parse_query() {
    let raw = make_query(0xABCD, "www.example.com", qtype::A);
    let msg = DnsMessage::parse(&raw).unwrap();
    assert_eq!(msg.id, 0xABCD);
    assert!(msg.is_query());
    assert_eq!(msg.questions[0].name, "www.example.com");
    assert_eq!(msg.questions[0].qtype, qtype::A);
}

#[test]
fn test_zero_ip_a() {
    let raw = make_query(1, "ads.com", qtype::A);
    let msg = DnsMessage::parse(&raw).unwrap();
    let resp = msg.zero_ip(60);
    let parsed = DnsMessage::parse(&resp).unwrap();
    assert_eq!(parsed.answers.len(), 1);
    assert!(matches!(parsed.answers[0].rdata, RData::A([0, 0, 0, 0])));
}

#[test]
fn test_rewrite_ipv4() {
    let raw = make_query(2, "test.com", qtype::A);
    let msg = DnsMessage::parse(&raw).unwrap();
    let resp = msg.rewrite("1.2.3.4", Some([1, 2, 3, 4]), None, 300);
    let parsed = DnsMessage::parse(&resp).unwrap();
    assert_eq!(parsed.answers.len(), 1);
    assert!(matches!(parsed.answers[0].rdata, RData::A([1, 2, 3, 4])));
}

#[test]
fn test_patch_id() {
    let raw = make_query(0x1111, "test.com", qtype::A);
    let msg = DnsMessage::parse(&raw).unwrap();
    let mut resp = msg.nxdomain();
    DnsMessage::patch_id(&mut resp, 0x9999);
    let patched = DnsMessage::parse(&resp).unwrap();
    assert_eq!(patched.id, 0x9999);
}

#[test]
fn test_multi_label_domain() {
    let raw = make_query(3, "a.b.c.d.example.co.uk", qtype::AAAA);
    let msg = DnsMessage::parse(&raw).unwrap();
    assert_eq!(msg.questions[0].name, "a.b.c.d.example.co.uk");
    assert_eq!(msg.questions[0].qtype, qtype::AAAA);
}

#[test]
fn query_is_written_as_it_was_read() {
    let raw = make_query(0xABCD, "www.example.com", qtype::A);
    let msg = DnsMessage::parse(&raw).unwrap();
    assert_eq!(msg.to_bytes(), raw);
}

#[test]
fn names_are_read_in_lower_case() {
    let raw = make_query(7, "WWW.Example.COM", qtype::A);
    let msg = DnsMessage::parse(&raw).unwrap();
    assert_eq!(msg.questions[0].name, "www.example.com");
}

#[test]
fn names_beyond_ascii_are_read_in_lower_case() {
    let raw = make_query(7, "B\u{dc}CHER.de", qtype::A);
    let msg = DnsMessage::parse(&raw).unwrap();
    assert_eq!(msg.questions[0].name, "b\u{fc}cher.de");
}

#[test]
fn names_do_not_end_in_a_dot() {
    assert_eq!(parse_name(&[1, b'.', 0], 0).unwrap(), ("".to_string(), 3));
    assert_eq!(parse_name(&[1, b'A', 3, b'b', b'.', b'.', 0], 0).unwrap(), ("a.b".to_string(), 7));
    assert_eq!(parse_name(&[2, b'.', b'a', 0], 0).unwrap(), (".a".to_string(), 4));
    let msg = DnsMessage::parse(&with_question(&[2, b'x', b'.', 0, 0, 1, 0, 1])).unwrap();
    assert_eq!(msg.questions[0].name, "x");
}

#[test]
fn the_root_has_no_labels() {
    let msg = DnsMessage::parse(&with_question(&[0, 0, 1, 0, 1])).unwrap();
    assert_eq!(msg.questions[0].name, "");
    let mut buf = Vec::new();
    encode_name(&mut buf, "");
    assert_eq!(buf, vec![0]);
}

#[test]
fn pointers_are_followed() {
    // www and a pointer to example.com at position 21
    let mut raw = with_question(&[3, b'w', b'w', b'w', 0xC0, 22, 0, 1, 0, 1]);
    raw.extend_from_slice(&[2, b'e', b'x', 0]);
    let (name, end) = parse_name(&raw, 12).unwrap();
    assert_eq!(name, "www.ex");
    assert_eq!(end, 18);
    assert_eq!(DnsMessage::parse(&raw).unwrap().questions[0].qtype, qtype::A);
}

#[test]
fn pointer_cycles_are_refused() {
    let raw = with_question(&[0xC0, 14, 0xC0, 12, 0, 1, 0, 1]);
    assert_eq!(error_of(&raw), "DNS: name compression loop");
}

#[test]
fn as_many_labels_as_steps_are_read() {
    let mut raw = vec![];
    for _ in 0..128 {
        raw.extend_from_slice(&[1, b'a']);
    }
    raw.push(0);
    let (name, end) = parse_name(&raw, 0).unwrap();
    assert_eq!(name.len(), 255);
    assert_eq!(end, 257);
    raw.insert(0, b'a');
    raw.insert(0, 1);
    assert_eq!(parse_name(&raw, 0).unwrap_err().0, "name compression loop");
}

#[test]
fn damaged_packets_are_refused() {
    assert_eq!(error_of(&[0; 11]), "DNS: packet too short");
    assert_eq!(error_of(&with_question(&[])), "DNS: name OOB");
    assert_eq!(error_of(&with_question(&[0xC0])), "DNS: pointer OOB");
    assert_eq!(error_of(&with_question(&[5, b'a'])), "DNS: label OOB");
    assert_eq!(error_of(&with_question(&[1, 0xFF, 0])), "DNS: invalid UTF-8 label");
    assert_eq!(error_of(&with_question(&[0x40, 0])), "DNS: unsupported label type 0x40");
    assert_eq!(error_of(&with_question(&[0xBF, 0])), "DNS: unsupported label type 0xbf");
    assert_eq!(error_of(&with_question(&[0, 0, 1, 0])), "DNS: truncated question");
}

#[test]
fn damaged_records_are_refused() {
    let header = [0, 1, 0x80, 0, 0, 0, 0, 1, 0, 0, 0, 0];
    let mut short = header.to_vec();
    short.extend_from_slice(&[0, 0, 1, 0, 1]);
    assert_eq!(error_of(&short), "DNS: RR header truncated");
    let mut cut = header.to_vec();
    cut.extend_from_slice(&[0, 0, 1, 0, 1, 0, 0, 0, 9, 0, 4, 1, 2]);
    assert_eq!(error_of(&cut), "DNS: RDATA truncated");
    let mut cname = header.to_vec();
    cname.extend_from_slice(&[0, 0, 5, 0, 1, 0, 0, 0, 9, 0, 1, 0x80]);
    assert_eq!(error_of(&cname), "DNS: unsupported label type 0x80");
}

#[test]
fn only_standard_queries_are_queries() {
    let mut msg = DnsMessage::parse(&make_query(1, "a.b", qtype::A)).unwrap();
    msg.flags = 0x07FF;
    assert!(msg.is_query());
    msg.flags = 0x0800;
    assert!(!msg.is_query());
    msg.flags = 0x8000;
    assert!(!msg.is_query());
}

#[test]
fn responses_repeat_the_query() {
    let raw = make_query(0x1234, "example.com", qtype::AAAA);
    let msg = DnsMessage::parse(&raw).unwrap();
    let cases = [
        (msg.nxdomain(), rcode::NX_DOMAIN),
        (msg.refused(), rcode::REFUSED),
        (msg.servfail(), rcode::SERV_FAIL),
    ];
    for (bytes, code) in cases.iter() {
        let resp = DnsMessage::parse(bytes).unwrap();
        assert_eq!(resp.id, 0x1234);
        assert_eq!(resp.flags, 0x8180 | code);
        assert!(!resp.is_query());
        assert_eq!(resp.questions.len(), 1);
        assert_eq!(resp.questions[0].name, "example.com");
        assert_eq!(resp.questions[0].qtype, qtype::AAAA);
        assert_eq!(resp.questions[0].qclass, CLASS_IN);
        assert!(resp.answers.is_empty());
    }
}

#[test]
fn recursion_is_wanted_where_the_query_wants_it() {
    let mut msg = DnsMessage::parse(&make_query(1, "a.b", qtype::A)).unwrap();
    msg.flags = 0;
    assert_eq!(msg.make_response(rcode::NO_ERROR).flags, 0x8080);
    msg.flags = 0x0100;
    assert_eq!(msg.make_response(rcode::NO_ERROR).flags, 0x8180);
}

#[test]
fn zero_address_for_address_questions_only() {
    let aaaa = DnsMessage::parse(&make_query(1, "ads.com", qtype::AAAA)).unwrap();
    let resp = DnsMessage::parse(&aaaa.zero_ip(60)).unwrap();
    assert!(matches!(resp.answers[0].rdata, RData::Aaaa(ip) if ip == [0u8; 16]));
    assert_eq!(resp.answers[0].ttl, 60);
    assert_eq!(resp.answers[0].name, "ads.com");
    let mx = DnsMessage::parse(&make_query(1, "ads.com", 15)).unwrap();
    assert!(DnsMessage::parse(&mx.zero_ip(60)).unwrap().answers.is_empty());
    let none = DnsMessage::parse(&[0, 1, 1, 0, 0, 0, 0, 0, 0, 0, 0, 0]).unwrap();
    assert!(DnsMessage::parse(&none.zero_ip(60)).unwrap().answers.is_empty());
}

#[test]
fn rewrite_to_an_address_or_a_name() {
    let msg = DnsMessage::parse(&make_query(2, "test.com", qtype::A)).unwrap();
    let mut ip = [0u8; 16];
    ip[15] = 1;
    let six = DnsMessage::parse(&msg.rewrite("::1", None, Some(ip), 300)).unwrap();
    assert_eq!(six.answers[0].rtype, qtype::AAAA);
    assert!(matches!(six.answers[0].rdata, RData::Aaaa(a) if a == ip));
    let name = DnsMessage::parse(&msg.rewrite("other.org", None, None, 300)).unwrap();
    assert_eq!(name.answers[0].rtype, qtype::CNAME);
    assert_eq!(name.answers[0].ttl, 300);
    match &name.answers[0].rdata {
        RData::Cname(target) => assert_eq!(target, "other.org"),
        _ => panic!("no name"),
    }
    let none = DnsMessage::parse(&[0, 1, 1, 0, 0, 0, 0, 0, 0, 0, 0, 0]).unwrap();
    assert!(DnsMessage::parse(&none.rewrite("a", None, None, 1)).unwrap().answers.is_empty());
}

#[test]
fn smallest_time_to_live() {
    let msg = DnsMessage::parse(&make_query(2, "test.com", qtype::A)).unwrap();
    assert_eq!(DnsMessage::min_ttl(&msg.zero_ip(60)), Some(60));
    assert_eq!(DnsMessage::min_ttl(&msg.zero_ip(0)), None);
    assert_eq!(DnsMessage::min_ttl(&msg.nxdomain()), None);
    assert_eq!(DnsMessage::min_ttl(&[1, 2, 3]), None);
    let mut two = msg.make_response(rcode::NO_ERROR);
    for ttl in [300u32, 20, 4_000_000_000] {
        two.answers.push(ResourceRecord {
            name: "test.com".to_string(),
            rtype: qtype::A,
            rclass: CLASS_IN,
            ttl,
            rdata: RData::A([1, 2, 3, 4]),
        });
    }
    assert_eq!(DnsMessage::min_ttl(&two.to_bytes()), Some(20));
}

#[test]
fn short_packets_keep_their_bytes() {
    let mut one = [7u8];
    DnsMessage::patch_id(&mut one, 0x9999);
    assert_eq!(one, [7]);
    let mut two = [7u8, 8];
    DnsMessage::patch_id(&mut two, 0x1234);
    assert_eq!(two, [0x12, 0x34]);
}

#[test]
fn records_are_written_and_read() {
    let rr = ResourceRecord {
        name: "a.example".to_string(),
        rtype: 16,
        rclass: CLASS_IN,
        ttl: 0x01020304,
        rdata: RData::Raw(vec![9, 8, 7]),
    };
    let mut buf = Vec::new();
    encode_rr(&mut buf, &rr);
    assert_eq!(
        buf,
        vec![
            1, b'a', 7, b'e', b'x', b'a', b'm', b'p', b'l', b'e', 0, 0, 16, 0, 1, 1, 2, 3, 4, 0, 3,
            9, 8, 7
        ]
    );
    let (back, end) = parse_rr(&buf, 0).unwrap();
    assert_eq!(end, buf.len());
    assert_eq!(back.name, rr.name);
    assert_eq!(back.ttl, rr.ttl);
    match back.rdata {
        RData::Raw(bytes) => assert_eq!(bytes, vec![9, 8, 7]),
        _ => panic!("not raw"),
    }
}

#[test]
fn an_address_of_another_length_stays_raw() {
    let raw = [0, 0, 1, 0, 1, 0, 0, 0, 9, 0, 2, 1, 2];
    let (rr, _) = parse_rr(&raw, 0).unwrap();
    assert!(matches!(rr.rdata, RData::Raw(bytes) if bytes == vec![1, 2]));
}

#[test]
fn messages_with_all_sections_round_trip() {
    let record = |name: &str, rtype: u16, rdata: RData| ResourceRecord {
        name: name.to_string(),
        rtype,
        rclass: CLASS_IN,
        ttl: 77,
        rdata,
    };
    let msg = DnsMessage {
        id: 5,
        flags: 0x8180,
        questions: vec![Question {
            name: "a.b".to_string(),
            qtype: qtype::A,
            qclass: CLASS_IN,
        }],
        answers: vec![
            record("a.b", qtype::CNAME, RData::Cname("c.d".to_string())),
            record("c.d", qtype::A, RData::A([10, 0, 0, 1])),
        ],
        authorities: vec![record("", 2, RData::Raw(vec![1]))],
        additionals: vec![],
    };
    let bytes = msg.to_bytes();
    let back = DnsMessage::parse(&bytes).unwrap();
    assert_eq!(back.to_bytes(), bytes);
    assert_eq!(back.answers.len(), 2);
    assert_eq!(back.authorities.len(), 1);
    assert!(matches!(&back.answers[0].rdata, RData::Cname(n) if n == "c.d"));
}

#[test]
fn additional_records_are_counted_and_left_out() {
    let mut msg = DnsMessage::parse(&make_query(1, "a.b", qtype::A)).unwrap();
    let plain = msg.to_bytes();
    msg.additionals.push(ResourceRecord {
        name: "a.b".to_string(),
        rtype: qtype::A,
        rclass: CLASS_IN,
        ttl: 1,
        rdata: RData::A([1, 1, 1, 1]),
    });
    let bytes = msg.to_bytes();
    assert_eq!(bytes.len(), plain.len());
    assert_eq!(bytes[11], 1);
    assert!(DnsMessage::parse(&bytes).unwrap().additionals.is_empty());
}

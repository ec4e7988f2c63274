use dex::bytes::Bytes;
use dex::error::DnsError;
use dex::header::{Header, OperationCode, ResponseCode};
use dex::message::Message;
use dex::name::Name;
use dex::question::{Question, QuestionClass, QuestionType};
use dex::record::{Class, Record};

fn name(text: &str) -> Name {
    Name::from_str(text).unwrap()
}

fn all_kinds() -> Vec<Record> {
    vec![
        Record::A {
            name: name("a.example.com."),
            class: Class::In,
            ttl: 60,
            addr: 0x0A000001,
        },
        Record::Ns {
            name: name("example.com."),
            class: Class::In,
            ttl: 60,
            host: name("ns.example.com."),
        },
        Record::Md {
            name: name("example.com."),
            class: Class::In,
            ttl: 60,
            host: name("md.example.com."),
        },
        Record::Mf {
            name: name("example.com."),
            class: Class::In,
            ttl: 60,
            host: name("mf.example.com."),
        },
        Record::Cname {
            name: name("alias.example.com."),
            class: Class::In,
            ttl: 60,
            host: name("example.com."),
        },
        Record::Soa {
            name: name("example.com."),
            class: Class::In,
            ttl: 60,
            origin: name("ns.example.com."),
            mailbox: name("mail.example.com."),
            version: 7,
            refresh: 1200,
            retry: 300,
            expire: 604800,
            minimum: 60,
        },
        Record::Mb {
            name: name("example.com."),
            class: Class::In,
            ttl: 60,
            host: name("mb.example.com."),
        },
        Record::Mg {
            name: name("example.com."),
            class: Class::In,
            ttl: 60,
            host: name("mg.example.com."),
        },
        Record::Mr {
            name: name("example.com."),
            class: Class::In,
            ttl: 60,
            host: name("mr.example.com."),
        },
        Record::Null {
            name: name("example.com."),
            class: Class::In,
            ttl: 60,
            data: vec![1, 2, 3, 4, 5],
        },
        Record::Wks {
            name: name("example.com."),
            class: Class::In,
            ttl: 60,
            addr: 0x0A000001,
            protocol: 6,
            data: vec![0xFF, 0x01],
        },
        Record::Ptr {
            name: name("example.com."),
            class: Class::In,
            ttl: 60,
            host: name("ptr.example.com."),
        },
        Record::Hinfo {
            name: name("example.com."),
            class: Class::In,
            ttl: 60,
            cpu: b"VAX-11".to_vec(),
            os: b"UNIX".to_vec(),
        },
        Record::Minfo {
            name: name("example.com."),
            class: Class::In,
            ttl: 60,
            r_mailbox: name("r.example.com."),
            e_mailbox: name("e.example.com."),
        },
        Record::Mx {
            name: name("example.com."),
            class: Class::In,
            ttl: 60,
            priority: 10,
            host: name("mail.example.com."),
        },
        Record::Txt {
            name: name("example.com."),
            class: Class::In,
            ttl: 60,
            content: b"hello world".to_vec(),
        },
        Record::Aaaa {
            name: name("example.com."),
            class: Class::In,
            ttl: 60,
            addr: vec![0, 1, 2, 3, 4, 5, 6, 7, 8, 9, 10, 11, 12, 13, 14, 15],
        },
        Record::Opt {
            name: name("."),
            max_response_size: 4096,
            extended_rcode: 0,
            version: 0,
            dnssec_ok: true,
            data: vec![],
        },
    ]
}

fn encode(msg: &Message) -> Vec<u8> {
    let mut b = Bytes::new();
    msg.to_bytes(&mut b);
    b.used().to_vec()
}

fn decode(buf: &[u8]) -> Message {
    let mut b = Bytes::from_buf(buf);
    Message::from_bytes(&mut b).unwrap()
}

#[test]
fn every_kind_round_trips_in_a_message() {
    let records = all_kinds();
    let n = records.len() as u16;
    let mut msg = Message::new();
    msg.header.id = 4242;
    msg.header.is_response = true;
    msg.header.question_count = 1;
    msg.header.answer_count = n;
    msg.questions = vec![Question {
        name: name("example.com."),
        q_type: QuestionType::ALL,
        q_class: QuestionClass::In,
    }];
    msg.answer_records = records;
    let wire = encode(&msg);
    let back = decode(&wire);
    assert_eq!(back.header, msg.header);
    assert_eq!(back.questions.len(), 1);
    assert_eq!(back.questions[0].name, name("example.com."));
    assert_eq!(back.answer_records.len(), msg.answer_records.len());
    for (orig, dec) in msg.answer_records.iter().zip(back.answer_records.iter()) {
        assert_eq!(orig.code(), dec.code());
        assert_eq!(orig.name(), dec.name());
        assert_eq!(orig.class(), dec.class());
        assert_eq!(orig.ttl(), dec.ttl());
    }
    match &back.answer_records[0] {
        Record::A { addr, .. } => assert_eq!(*addr, 0x0A000001),
        _ => panic!("expected an A record"),
    }
    match &back.answer_records[5] {
        Record::Soa {
            origin,
            mailbox,
            version,
            refresh,
            retry,
            expire,
            minimum,
            ..
        } => {
            assert_eq!(origin, &name("ns.example.com."));
            assert_eq!(mailbox, &name("mail.example.com."));
            assert_eq!(
                (*version, *refresh, *retry, *expire, *minimum),
                (7, 1200, 300, 604800, 60)
            );
        }
        _ => panic!("expected a SOA record"),
    }
    match &back.answer_records[12] {
        Record::Hinfo { cpu, os, .. } => {
            assert_eq!(cpu, b"VAX-11");
            assert_eq!(os, b"UNIX");
        }
        _ => panic!("expected a HINFO record"),
    }
    match &back.answer_records[16] {
        Record::Aaaa { addr, .. } => assert_eq!(addr[15], 15),
        _ => panic!("expected an AAAA record"),
    }
    // A second encoding of the decoded message is byte-identical.
    assert_eq!(encode(&back), wire);
}

#[test]
fn recompression_shrinks_a_plain_encoding() {
    // Two A records for the same name, written without compression.
    let mut b = Bytes::new();
    let mut header = Header::default();
    header.id = 7;
    header.is_response = true;
    header.answer_count = 2;
    header.to_bytes(&mut b);
    for _ in 0..2 {
        b.write(7);
        b.write_all(b"example");
        b.write(3);
        b.write_all(b"com");
        b.write(0);
        b.write_u16(1); // type A
        b.write_u16(1); // class IN
        b.write_u32(60); // ttl
        b.write_u16(4); // rdlength
        b.write_u32(0x0A000001);
    }
    let wire = b.used().to_vec();
    let msg = decode(&wire);
    assert_eq!(msg.answer_records.len(), 2);
    let rewire = encode(&msg);
    // The second name collapses to a two-octet pointer.
    assert!(rewire.len() < wire.len());
    assert_eq!(rewire.len(), wire.len() - 11);
    let again = decode(&rewire);
    assert_eq!(again.header, msg.header);
    assert_eq!(again.answer_records[1].name(), msg.answer_records[1].name());
    assert_eq!(encode(&again), rewire);
}

#[test]
fn shared_suffixes_become_pointers() {
    let mut msg = Message::new();
    msg.header.question_count = 1;
    msg.header.answer_count = 1;
    msg.questions = vec![Question {
        name: name("example.com."),
        q_type: QuestionType::A,
        q_class: QuestionClass::In,
    }];
    msg.answer_records = vec![Record::A {
        name: name("example.com."),
        class: Class::In,
        ttl: 60,
        addr: 0x0A000001,
    }];
    let wire = encode(&msg);
    // Header (12) + question (13 + 4) + record (2 + 10 + 4): the answer's
    // name is a pointer to offset 12, where the question's name begins.
    assert_eq!(wire.len(), 45);
    assert_eq!(wire[29], 0xC0);
    assert_eq!(wire[30], 12);
    let back = decode(&wire);
    assert_eq!(back.answer_records[0].name(), &name("example.com."));
}

#[test]
fn pointer_not_strictly_backwards_is_rejected() {
    // A pointer at offset zero can only point at or past itself.
    let mut b = Bytes::from_buf(&[0xC0, 0x00]);
    assert_eq!(Name::from_bytes(&mut b), Err(DnsError::FormatError));
    // A pointer whose target equals its own offset is rejected too.
    let mut b = Bytes::from_buf(&[3, b'c', b'o', b'm', 0, 0xC0, 0x05]);
    b.seek(5);
    assert_eq!(Name::from_bytes(&mut b), Err(DnsError::FormatError));
    // A strictly backwards pointer is followed.
    let mut b = Bytes::from_buf(&[3, b'c', b'o', b'm', 0, 0xC0, 0x00]);
    b.seek(5);
    assert_eq!(Name::from_bytes(&mut b), Ok(name("com.")));
}

#[test]
fn long_txt_content_splits_and_reassembles() {
    let mut content = Vec::new();
    for i in 0..300 {
        content.push((i % 251) as u8);
    }
    let rec = Record::Txt {
        name: name("example.com."),
        class: Class::In,
        ttl: 60,
        content: content.clone(),
    };
    let mut b = Bytes::new();
    rec.to_bytes(&mut b);
    let wire = b.used().to_vec();
    // The name takes 13 octets and the fixed fields 10; the rdata is two
    // character-strings: 255 octets and 45 octets, each behind one length
    // octet.
    assert_eq!(wire[23], 255);
    assert_eq!(wire[23 + 256], 45);
    let mut c = Bytes::from_buf(&wire);
    match Record::from_bytes(&mut c).unwrap() {
        Record::Txt { content: back, .. } => assert_eq!(back, content),
        _ => panic!("expected a TXT record"),
    }
}

#[test]
fn opt_keeps_size_and_dnssec_flag() {
    let rec = Record::Opt {
        name: name("."),
        max_response_size: 4096,
        extended_rcode: 1,
        version: 0,
        dnssec_ok: true,
        data: vec![9, 9],
    };
    let mut b = Bytes::new();
    rec.to_bytes(&mut b);
    let wire = b.used().to_vec();
    // Root name (1), type (2), then the class slot carries the size.
    assert_eq!(&wire[3..5], &[0x10, 0x00]);
    let mut c = Bytes::from_buf(&wire);
    match Record::from_bytes(&mut c).unwrap() {
        Record::Opt {
            max_response_size,
            extended_rcode,
            version,
            dnssec_ok,
            data,
            ..
        } => {
            assert_eq!(max_response_size, 4096);
            assert_eq!(extended_rcode, 1);
            assert_eq!(version, 0);
            assert!(dnssec_ok);
            assert_eq!(data, vec![9, 9]);
        }
        _ => panic!("expected an OPT record"),
    }
}

#[test]
fn header_flags_round_trip() {
    let header = Header {
        id: 0xBEEF,
        is_response: true,
        op_code: OperationCode::Status,
        is_authority: true,
        is_truncated: true,
        recursion_desired: true,
        recursion_available: true,
        resp_code: ResponseCode::Refused,
        question_count: 1,
        answer_count: 2,
        authority_count: 3,
        additional_count: 4,
    };
    let mut b = Bytes::new();
    header.to_bytes(&mut b);
    let mut c = Bytes::from_buf(b.used());
    assert_eq!(Header::from_bytes(&mut c), Ok(header));
}

#[test]
fn unknown_codes_are_format_errors() {
    // An unknown record type.
    let mut b = Bytes::new();
    b.write(0); // root name
    b.write_u16(99); // no such type
    b.write_u16(1);
    b.write_u32(0);
    b.write_u16(0);
    let mut c = Bytes::from_buf(b.used());
    assert!(matches!(
        Record::from_bytes(&mut c),
        Err(DnsError::FormatError)
    ));
    // An unknown class.
    let mut b = Bytes::new();
    b.write(0);
    b.write_u16(1);
    b.write_u16(9); // no such class
    b.write_u32(0);
    b.write_u16(4);
    b.write_u32(0x0A000001);
    let mut c = Bytes::from_buf(b.used());
    assert!(matches!(
        Record::from_bytes(&mut c),
        Err(DnsError::FormatError)
    ));
    // A truncated header.
    let mut c = Bytes::from_buf(&[0, 1, 2]);
    assert_eq!(Header::from_bytes(&mut c), Err(DnsError::FormatError));
}

#[test]
fn question_codes_parse() {
    assert_eq!(QuestionType::from_str("A"), Ok(QuestionType::A));
    assert_eq!(QuestionType::from_str("MX"), Ok(QuestionType::MX));
    assert_eq!(QuestionType::from_str("ALL"), Ok(QuestionType::ALL));
    assert_eq!(QuestionType::from_str("BOGUS"), Err(DnsError::FormatError));
    assert_eq!(QuestionClass::from_str("IN"), Ok(QuestionClass::In));
    assert_eq!(QuestionClass::from_str("ANY"), Ok(QuestionClass::Any));
    assert_eq!(QuestionClass::from_str("XX"), Err(DnsError::FormatError));
    assert_eq!(QuestionType::ALL.code(), 255);
    assert_eq!(Class::from_code(3), Ok(Class::Ch));
    assert_eq!(Class::from_code(9), Err(DnsError::FormatError));
}

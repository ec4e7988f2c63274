use dex::header::{OperationCode, ResponseCode};
use dex::message::Message;
use dex::name::Name;
use dex::question::{Question, QuestionClass, QuestionType};
use dex::record::{Class, Record};
use dex::zone::Zone;

fn name(text: &str) -> Name {
    Name::from_str(text).unwrap()
}

fn example_zone() -> Zone {
    let records = vec![
        Record::A {
            name: name("example.com."),
            class: Class::In,
            ttl: 60,
            addr: 0x0A000001, // 10.0.0.1
        },
        Record::Mx {
            name: name("example.com."),
            class: Class::In,
            ttl: 60,
            priority: 10,
            host: name("mail.example.com."),
        },
        Record::Ns {
            name: name("sub.example.com."),
            class: Class::In,
            ttl: 60,
            host: name("ns.other.com."),
        },
        Record::Cname {
            name: name("alias.example.com."),
            class: Class::In,
            ttl: 60,
            host: name("example.com."),
        },
        Record::A {
            name: name("*.example.com."),
            class: Class::In,
            ttl: 60,
            addr: 0x0A000009, // 10.0.0.9
        },
    ];
    Zone::new(name("example.com."), records).unwrap()
}

fn query(domain: &str, q_type: QuestionType) -> Message {
    let mut msg = Message::new();
    msg.header.id = 99;
    msg.header.recursion_desired = true;
    msg.header.question_count = 1;
    msg.questions = vec![Question {
        name: name(domain),
        q_type,
        q_class: QuestionClass::In,
    }];
    msg
}

#[test]
fn exact_match_answers_authoritatively() {
    let response = example_zone().serve(query("example.com.", QuestionType::A));
    assert!(matches!(response.header.resp_code, ResponseCode::Success));
    assert!(response.header.is_authority);
    assert!(response.header.is_response);
    assert_eq!(response.header.id, 99);
    assert_eq!(response.header.answer_count, 1);
    assert_eq!(response.answer_records.len(), 1);
    match &response.answer_records[0] {
        Record::A { name: n, addr, .. } => {
            assert_eq!(n, &name("example.com."));
            assert_eq!(*addr, 0x0A000001);
        }
        _ => panic!("expected an A record"),
    }
}

#[test]
fn all_query_collects_every_type() {
    let response = example_zone().serve(query("example.com.", QuestionType::ALL));
    assert!(matches!(response.header.resp_code, ResponseCode::Success));
    assert_eq!(response.answer_records.len(), 2);
    assert!(response
        .answer_records
        .iter()
        .any(|r| matches!(r, Record::A { .. })));
    assert!(response
        .answer_records
        .iter()
        .any(|r| matches!(r, Record::Mx { .. })));
}

#[test]
fn cname_answers_without_chasing() {
    let response = example_zone().serve(query("alias.example.com.", QuestionType::A));
    assert!(matches!(response.header.resp_code, ResponseCode::Success));
    assert!(response.header.is_authority);
    assert_eq!(response.answer_records.len(), 1);
    match &response.answer_records[0] {
        Record::Cname { host, .. } => assert_eq!(host, &name("example.com.")),
        _ => panic!("expected a CNAME record"),
    }
}

#[test]
fn delegation_fills_the_authority_section() {
    let response = example_zone().serve(query("sub.example.com.", QuestionType::A));
    assert!(matches!(response.header.resp_code, ResponseCode::Success));
    assert!(!response.header.is_authority);
    assert_eq!(response.answer_records.len(), 0);
    assert_eq!(response.authority_records.len(), 1);
    match &response.authority_records[0] {
        Record::Ns { host, .. } => assert_eq!(host, &name("ns.other.com.")),
        _ => panic!("expected an NS record"),
    }
}

#[test]
fn wildcard_answers_under_the_query_name() {
    let response = example_zone().serve(query("unknown.example.com.", QuestionType::A));
    assert!(matches!(response.header.resp_code, ResponseCode::Success));
    assert!(response.header.is_authority);
    assert_eq!(response.answer_records.len(), 1);
    match &response.answer_records[0] {
        Record::A { name: n, addr, .. } => {
            assert_eq!(n, &name("unknown.example.com."));
            assert_eq!(*addr, 0x0A000009);
        }
        _ => panic!("expected an A record"),
    }
}

#[test]
fn wildcard_is_type_exact() {
    let response = example_zone().serve(query("nothing.example.com.", QuestionType::TXT));
    assert!(matches!(response.header.resp_code, ResponseCode::NameError));
    assert_eq!(response.answer_records.len(), 0);
}

#[test]
fn non_query_opcode_is_not_implemented() {
    let mut q = query("example.com.", QuestionType::A);
    q.header.op_code = OperationCode::Status;
    let response = example_zone().serve(q);
    assert!(matches!(
        response.header.resp_code,
        ResponseCode::NotImplemented
    ));
    assert_eq!(response.questions.len(), 1);
    assert_eq!(response.questions[0].name, name("example.com."));
    assert_eq!(response.answer_records.len(), 0);
}

#[test]
fn explicit_data_defeats_a_shallower_wildcard() {
    // The walk under an empty level captures that level's wildcard: a
    // query below unknown.example.com. still reaches *.example.com.
    let deep = example_zone().serve(query("a.unknown.example.com.", QuestionType::A));
    assert!(matches!(deep.header.resp_code, ResponseCode::Success));
    assert_eq!(deep.answer_records.len(), 1);
    // But explicit records at a level defeat the wildcard beside it: the
    // CNAME at alias.example.com. keeps a query below that name away
    // from *.example.com.
    let response = example_zone().serve(query("a.alias.example.com.", QuestionType::A));
    assert!(matches!(response.header.resp_code, ResponseCode::NameError));
    assert_eq!(response.answer_records.len(), 0);
}

#[test]
fn cname_answers_any_queried_type() {
    // A CNAME at the query name answers whatever type was asked.
    let response = example_zone().serve(query("alias.example.com.", QuestionType::TXT));
    assert!(matches!(response.header.resp_code, ResponseCode::Success));
    assert_eq!(response.answer_records.len(), 1);
    assert!(matches!(response.answer_records[0], Record::Cname { .. }));
}

#[test]
fn zone_lookup_preserves_declaration_order() {
    let zone = example_zone();
    let found = zone.find_with_name(&name("example.com."));
    assert_eq!(found.len(), 2);
    assert!(matches!(found[0], Record::A { .. }));
    assert!(matches!(found[1], Record::Mx { .. }));
}

#[test]
fn zone_rejects_records_outside_its_name() {
    let records = vec![Record::A {
        name: name("example.org."),
        class: Class::In,
        ttl: 60,
        addr: 1,
    }];
    assert!(Zone::new(name("example.com."), records).is_err());
}

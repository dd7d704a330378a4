use mdns_proto::wire::{MessageReader, ResourceType as WireType};
use osc_booper::oscquery::buffers::{
    BufferType, MessageBuffers, QuestionBuffer, ReadError, RecordBuffer,
};
use osc_booper::oscquery::mdns::{make_dns_label, make_srv_rdata, MdnsServer, TTL};
use osc_booper::oscquery::parse::{
    join_label_list, read_questions, read_records, read_sections, Question,
};
use osc_booper::oscquery::store::{all_fit, RecordStore};
use osc_booper::oscquery::wire::{
    copy_bytes, encode_label_list, encode_name_bytes, push_be16, push_be32, same_bytes,
    split_name, write_records, Header, NameError, ResourceRecord, ResourceType, CLASS_IN,
};
use osc_booper::oscquery::{
    announce, announce_as, announced_nodes, host_info, AccessMode, Extensions, Transport,
};

fn wire_name(name: &str) -> Vec<u8> {
    let mut out = Vec::new();
    for label in name.split('.').filter(|l| !l.is_empty()) {
        out.push(label.len() as u8);
        out.extend_from_slice(label.as_bytes());
    }
    out.push(0);
    out
}

fn header(id: u16, flags: u16, counts: [u16; 4]) -> Vec<u8> {
    let mut out = Vec::new();
    for v in [id, flags, counts[0], counts[1], counts[2], counts[3]] {
        out.extend_from_slice(&v.to_be_bytes());
    }
    out
}

fn question_bytes(name: &str, qtype: u16) -> Vec<u8> {
    let mut out = wire_name(name);
    out.extend_from_slice(&qtype.to_be_bytes());
    out.extend_from_slice(&1u16.to_be_bytes());
    out
}

fn record_bytes(name: &str, rtype: u16, class: u16, ttl: u32, data: &[u8]) -> Vec<u8> {
    let mut out = wire_name(name);
    out.extend_from_slice(&rtype.to_be_bytes());
    out.extend_from_slice(&class.to_be_bytes());
    out.extend_from_slice(&ttl.to_be_bytes());
    out.extend_from_slice(&(data.len() as u16).to_be_bytes());
    out.extend_from_slice(data);
    out
}

fn query(id: u16, names: &[&str]) -> Vec<u8> {
    let mut out = header(id, 0, [names.len() as u16, 0, 0, 0]);
    for name in names {
        out.extend(question_bytes(name, 12));
    }
    out
}

fn record(name: &str, rtype: ResourceType, data: &[u8]) -> ResourceRecord {
    ResourceRecord::new(name, rtype, CLASS_IN, TTL, data.to_vec())
}

fn question(name: &str) -> Question {
    Question {
        labels: name.split('.').map(|l| l.as_bytes().to_vec()).collect(),
        qtype: 12,
        qclass: 1,
        unicast_response: false,
    }
}

#[test]
fn names_are_cut_at_dots() {
    let labels = |name: &str| split_name(name.as_bytes());
    assert_eq!(labels(""), Vec::<Vec<u8>>::new());
    assert_eq!(labels("local"), vec![b"local".to_vec()]);
    assert_eq!(labels("local."), vec![b"local".to_vec()]);
    assert_eq!(
        labels("_oscjson._tcp.local"),
        vec![b"_oscjson".to_vec(), b"_tcp".to_vec(), b"local".to_vec()]
    );
    assert_eq!(labels("a..b"), vec![b"a".to_vec(), b"".to_vec(), b"b".to_vec()]);
    assert_eq!(labels("."), vec![b"".to_vec()]);
    assert_eq!(labels(".a"), vec![b"".to_vec(), b"a".to_vec()]);
    assert_eq!(labels("a.."), vec![b"a".to_vec(), b"".to_vec()]);
}

#[test]
fn labels_are_joined_with_dots() {
    assert_eq!(join_label_list(&vec![]), b"".to_vec());
    assert_eq!(join_label_list(&vec![b"local".to_vec()]), b"local".to_vec());
    assert_eq!(
        join_label_list(&vec![b"_oscjson".to_vec(), b"_tcp".to_vec(), b"local".to_vec()]),
        b"_oscjson._tcp.local".to_vec()
    );
    assert_eq!(question("a.b.local").name(), b"a.b.local".to_vec());
}

#[test]
fn dns_label_is_length_prefixed() {
    assert_eq!(make_dns_label("foo.local"), Ok(b"\x03foo\x05local\x00".to_vec()));
    assert_eq!(make_dns_label("foo.local."), Ok(b"\x03foo\x05local\x00".to_vec()));
    assert_eq!(make_dns_label(""), Ok(vec![0]));
    assert_eq!(
        make_dns_label("osc-booper-abc._oscjson._tcp.local."),
        Ok(b"\x0eosc-booper-abc\x08_oscjson\x04_tcp\x05local\x00".to_vec())
    );
    assert_eq!(make_dns_label("foo.local"), Ok(wire_name("foo.local")));
}

#[test]
fn empty_labels_are_refused() {
    assert_eq!(make_dns_label("."), Err(NameError::EmptyLabel));
    assert_eq!(make_dns_label("a..b"), Err(NameError::EmptyLabel));
    assert_eq!(make_dns_label(".local"), Err(NameError::EmptyLabel));
    assert_eq!(make_dns_label("local.."), Err(NameError::EmptyLabel));
}

#[test]
fn long_labels_are_refused() {
    let longest = "a".repeat(63);
    let too_long = "a".repeat(64);
    let encoded = make_dns_label(&format!("{longest}.local")).unwrap();
    assert_eq!(encoded.len(), 1 + 63 + 1 + 5 + 1);
    assert_eq!(encoded[0], 63);
    assert_eq!(make_dns_label(&format!("{too_long}.local")), Err(NameError::LabelTooLong));
    assert_eq!(make_dns_label(&format!("x.{too_long}")), Err(NameError::LabelTooLong));
}

#[test]
fn long_names_are_refused() {
    let label = "a".repeat(62);
    let shorter = "a".repeat(61);
    let fits = format!("{label}.{label}.{label}.{shorter}.bc");
    assert_eq!(make_dns_label(&fits).unwrap().len(), 255);
    let too_long = format!("{label}.{label}.{label}.{shorter}.bcd");
    assert_eq!(make_dns_label(&too_long), Err(NameError::NameTooLong));
}

#[test]
fn the_first_faulty_label_names_the_error() {
    let label = "a".repeat(62);
    let long = "b".repeat(64);
    let name = format!("{label}.{label}.{label}.{label}.{label}..x");
    assert_eq!(make_dns_label(&name), Err(NameError::EmptyLabel));
    let name = format!("{label}.{label}.{label}.{label}.{label}.{long}..x");
    assert_eq!(make_dns_label(&name), Err(NameError::LabelTooLong));
    assert_eq!(make_dns_label(&format!("{long}..")), Err(NameError::LabelTooLong));
    assert_eq!(make_dns_label(&format!("..{long}")), Err(NameError::EmptyLabel));
    assert_eq!(
        encode_label_list(&vec![b"a".to_vec(), vec![], vec![b'b'; 64]]),
        Err(NameError::EmptyLabel)
    );
    assert_eq!(encode_name_bytes(b"a.b"), Ok(b"\x01a\x01b\x00".to_vec()));
}

#[test]
fn srv_rdata_holds_priority_weight_port_and_target() {
    assert_eq!(
        make_srv_rdata(0, 0, 8080, "host.local."),
        Ok(b"\x00\x00\x00\x00\x1f\x90\x04host\x05local\x00".to_vec())
    );
    assert_eq!(
        make_srv_rdata(0x0102, 0x0304, 0xfffe, "h"),
        Ok(b"\x01\x02\x03\x04\xff\xfe\x01h\x00".to_vec())
    );
    assert_eq!(make_srv_rdata(0, 0, 1, "a..b"), Err(NameError::EmptyLabel));
}

#[test]
fn numbers_are_written_in_network_order() {
    let mut out = vec![9u8];
    push_be16(&mut out, 0x1234);
    push_be32(&mut out, 0x89abcdef);
    push_be16(&mut out, 0);
    push_be32(&mut out, 120);
    assert_eq!(out, vec![9, 0x12, 0x34, 0x89, 0xab, 0xcd, 0xef, 0, 0, 0, 0, 0, 120]);
    assert!(same_bytes(&copy_bytes(&out), &out));
    assert!(!same_bytes(&out, &out[1..]));
    assert!(!same_bytes(b"ab", b"ac"));
    assert!(same_bytes(b"", b""));
}

#[test]
fn header_is_twelve_bytes() {
    let head = Header {
        id: 0x1234,
        flags: 0x8000,
        question_count: 1,
        answer_count: 2,
        authority_count: 3,
        additional_count: 0x0405,
    };
    let mut out = Vec::new();
    head.write(&mut out);
    assert_eq!(out, vec![0x12, 0x34, 0x80, 0, 0, 1, 0, 2, 0, 3, 4, 5]);
    let message = read_sections(&header(0x1234, 0x8000, [0, 0, 0, 0])).unwrap();
    assert_eq!(
        message.header,
        Header {
            id: 0x1234,
            flags: 0x8000,
            question_count: 0,
            answer_count: 0,
            authority_count: 0,
            additional_count: 0,
        }
    );
}

#[test]
fn record_types_have_their_codes() {
    assert_eq!(ResourceType::A.code(), 1);
    assert_eq!(ResourceType::Ptr.code(), 12);
    assert_eq!(ResourceType::Txt.code(), 16);
    assert_eq!(ResourceType::Srv.code(), 33);
    assert_eq!(ResourceType::A.code(), WireType::A.to_u16());
    assert_eq!(ResourceType::Ptr.code(), WireType::Ptr.to_u16());
    assert_eq!(ResourceType::Txt.code(), WireType::Txt.to_u16());
    assert_eq!(ResourceType::Srv.code(), WireType::Srv.to_u16());
}

#[test]
fn records_are_written_in_wire_form() {
    let a = record("host.local", ResourceType::A, &[127, 0, 0, 1]);
    let mut out = vec![7u8];
    assert!(a.write(&mut out));
    let mut expected = vec![7u8];
    expected.extend(record_bytes("host.local", 1, 1, 120, &[127, 0, 0, 1]));
    assert_eq!(out, expected);
    assert_eq!(
        &out[1..],
        b"\x04host\x05local\x00\x00\x01\x00\x01\x00\x00\x00\x78\x00\x04\x7f\x00\x00\x01"
    );
    assert_eq!(a.duplicate(), a);
    assert!(a.fits());
}

#[test]
fn records_that_do_not_fit_are_not_written() {
    let bad_name = record("a..b", ResourceType::A, &[1]);
    let mut out = vec![1u8, 2];
    assert!(!bad_name.fits());
    assert!(!bad_name.write(&mut out));
    assert_eq!(out, vec![1, 2]);

    let big = record("a", ResourceType::Txt, &vec![0u8; 65536]);
    assert!(!big.fits());
    assert!(!big.write(&mut out));
    assert_eq!(out, vec![1, 2]);
    let largest = record("a", ResourceType::Txt, &vec![0u8; 65535]);
    assert!(largest.fits());
    assert!(all_fit(&vec![largest]));
    assert!(!all_fit(&vec![record("a", ResourceType::A, &[]), big]));
}

#[test]
fn several_records_are_written_in_order() {
    let records = vec![
        record("a", ResourceType::A, &[1]),
        record("b", ResourceType::Txt, &[2, 3]),
        record("c", ResourceType::Srv, &[]),
    ];
    let mut out = Vec::new();
    write_records(&records, 1, 3, &mut out);
    let mut expected = record_bytes("b", 16, 1, 120, &[2, 3]);
    expected.extend(record_bytes("c", 33, 1, 120, &[]));
    assert_eq!(out, expected);
    write_records(&records, 0, 0, &mut out);
    assert_eq!(out, expected);
}

#[test]
fn store_keeps_the_last_records_of_a_name() {
    let mut store = RecordStore::new();
    assert!(store.get(b"a.local").is_none());
    assert!(store.insert(b"a.local", vec![record("a.local", ResourceType::A, &[1])]));
    assert!(store.insert(b"b.local", vec![record("b.local", ResourceType::A, &[2])]));
    assert_eq!(store.get(b"a.local"), Some(&vec![record("a.local", ResourceType::A, &[1])]));
    assert!(store.insert(b"a.local", vec![record("a.local", ResourceType::A, &[3])]));
    assert_eq!(store.get(b"a.local"), Some(&vec![record("a.local", ResourceType::A, &[3])]));
    assert_eq!(store.get(b"b.local"), Some(&vec![record("b.local", ResourceType::A, &[2])]));
    assert!(store.get(b"a.local.").is_none());
    assert!(store.get(b"A.local").is_none());
}

#[test]
fn store_refuses_records_that_cannot_be_written() {
    let mut store = RecordStore::new();
    assert!(store.insert(b"a", vec![record("a", ResourceType::A, &[1])]));
    assert!(!store.insert(b"a", vec![record("x..y", ResourceType::A, &[2])]));
    assert_eq!(store.get(b"a"), Some(&vec![record("a", ResourceType::A, &[1])]));
    assert!(!store.insert(b"b", vec![record("x..y", ResourceType::A, &[2])]));
    assert!(store.get(b"b").is_none());
}

#[test]
fn questions_are_read_from_a_query() {
    let data = query(7, &["_oscjson._tcp.local", "Other.Local"]);
    let message = read_sections(&data).unwrap();
    assert_eq!(message.header.id, 7);
    assert_eq!(message.header.question_count, 2);
    assert_eq!(message.questions, vec![question("_oscjson._tcp.local"), question("Other.Local")]);
    assert_eq!(message.questions[0].name(), b"_oscjson._tcp.local".to_vec());
    assert!(message.answers.is_empty());

    let (questions, end) = read_questions(&data, 12, 2).unwrap();
    assert_eq!(questions, message.questions);
    assert_eq!(end, data.len());
    assert!(read_questions(&data, 12, 3).is_none());
    assert_eq!(read_questions(&data, 12, 0).unwrap(), (vec![], 12));
}

#[test]
fn compressed_names_are_followed() {
    let mut data = header(1, 0, [2, 0, 0, 0]);
    data.extend(question_bytes("_tcp.local", 12));
    data.extend_from_slice(b"\x08_oscjson\xc0\x0c\x00\x0c\x80\x01");
    let message = read_sections(&data).unwrap();
    assert_eq!(message.questions[0], question("_tcp.local"));
    assert_eq!(
        message.questions[1],
        Question {
            labels: vec![b"_oscjson".to_vec(), b"_tcp".to_vec(), b"local".to_vec()],
            qtype: 12,
            qclass: 1,
            unicast_response: true,
        }
    );
}

#[test]
fn records_are_read_from_a_message() {
    let mut data = b"pad".to_vec();
    data.extend(record_bytes("host.local", 1, 0x8001, 120, &[127, 0, 0, 1]));
    data.extend(record_bytes("x.local", 16, 1, 5, b"\x03a=b"));
    let (records, end) = read_records(&data, 3, 2).unwrap();
    assert_eq!(end, data.len());
    assert_eq!(
        records,
        vec![
            ResourceRecord {
                name: b"host.local".to_vec(),
                rtype: 1,
                class: 0x8001,
                ttl: 120,
                data: vec![127, 0, 0, 1],
            },
            ResourceRecord {
                name: b"x.local".to_vec(),
                rtype: 16,
                class: 1,
                ttl: 5,
                data: b"\x03a=b".to_vec(),
            },
        ]
    );
    assert!(read_records(&data, 3, 3).is_none());
    assert!(read_records(&data, 4, 1).is_none());
}

fn questions_in(buffer: &QuestionBuffer) -> Vec<Question> {
    (0..buffer.len()).map(|i| buffer.get(i).unwrap().clone()).collect()
}

fn records_in(buffer: &RecordBuffer) -> Vec<ResourceRecord> {
    (0..buffer.len()).map(|i| buffer.get(i).unwrap().clone()).collect()
}

fn message_with_answers(answers: u16) -> Vec<u8> {
    let mut data = header(9, 0, [1, answers, 0, 0]);
    data.extend(question_bytes("_oscjson._tcp.local", 12));
    for i in 0..answers {
        data.extend(record_bytes("_oscjson._tcp.local", 12, 1, 120, &wire_name(&format!("s{i}.local"))));
    }
    data
}

fn known_answer(i: u16) -> ResourceRecord {
    ResourceRecord {
        name: b"_oscjson._tcp.local".to_vec(),
        rtype: 12,
        class: 1,
        ttl: 120,
        data: wire_name(&format!("s{i}.local")),
    }
}

#[test]
fn fresh_buffers_have_four_questions_and_one_answer() {
    let buffers = MessageBuffers::new();
    assert_eq!(
        questions_in(&buffers.questions),
        (0..4).map(|_| Question::empty()).collect::<Vec<_>>()
    );
    assert_eq!(records_in(&buffers.answers), vec![ResourceRecord::empty()]);
    assert_eq!(buffers.authorities.len(), 0);
    assert_eq!(buffers.additionals.len(), 0);
    assert!(buffers.questions.get(4).is_none());
    assert!(buffers.answers.get(1).is_none());
    assert!(buffers.authorities.get(0).is_none());
}

#[test]
fn a_message_that_fits_is_read_at_once() {
    let data = message_with_answers(1);
    let mut buffers = MessageBuffers::new();
    let head = buffers.read(&data).unwrap();
    assert_eq!((head.id, head.question_count, head.answer_count), (9, 1, 1));
    assert_eq!(buffers.questions.len(), 4);
    assert_eq!(buffers.questions.get(0), Some(&question("_oscjson._tcp.local")));
    assert_eq!(buffers.questions.get(1), Some(&Question::empty()));
    assert_eq!(records_in(&buffers.answers), vec![known_answer(0)]);

    let mut buffers = MessageBuffers::new();
    let (head, growths) = buffers.read_growing(&data);
    assert_eq!(head.map(|h| h.id), Some(9));
    assert_eq!(growths, 0);
}

#[test]
fn more_answers_than_slots_need_one_growth() {
    let data = message_with_answers(3);
    let mut buffers = MessageBuffers::new();
    assert_eq!(
        buffers.read(&data),
        Err(ReadError::NotEnoughWriteSpace { tried_to_write: 3, buffer_type: BufferType::Answer })
    );
    assert_eq!(records_in(&buffers.answers), vec![ResourceRecord::empty()]);
    assert_eq!(buffers.questions.get(0), Some(&Question::empty()));

    buffers.resize(BufferType::Answer, 3);
    assert_eq!(
        records_in(&buffers.answers),
        vec![ResourceRecord::empty(), ResourceRecord::empty(), ResourceRecord::empty()]
    );
    let head = buffers.read(&data).unwrap();
    assert_eq!(head.answer_count, 3);
    assert_eq!(
        records_in(&buffers.answers),
        vec![known_answer(0), known_answer(1), known_answer(2)]
    );

    let mut buffers = MessageBuffers::new();
    let (head, growths) = buffers.read_growing(&data);
    assert_eq!(head.map(|h| h.answer_count), Some(3));
    assert_eq!(growths, 1);
    assert_eq!(
        records_in(&buffers.answers),
        vec![known_answer(0), known_answer(1), known_answer(2)]
    );
    assert_eq!(buffers.questions.len(), 4);
    assert_eq!(buffers.questions.get(0), Some(&question("_oscjson._tcp.local")));
}

#[test]
fn every_short_buffer_grows_once() {
    let names = ["a.local", "b.local", "c.local", "d.local", "e.local"];
    let mut data = header(3, 0, [5, 2, 1, 2]);
    for name in names {
        data.extend(question_bytes(name, 1));
    }
    for i in 0..5u8 {
        data.extend(record_bytes("r.local", 1, 1, 10, &[i]));
    }
    let mut buffers = MessageBuffers::new();
    assert_eq!(
        buffers.read(&data),
        Err(ReadError::NotEnoughWriteSpace { tried_to_write: 5, buffer_type: BufferType::Question })
    );
    let (head, growths) = buffers.read_growing(&data);
    assert!(head.is_some());
    assert_eq!(growths, 4);
    assert_eq!(buffers.questions.len(), 5);
    assert_eq!(buffers.questions.get(4), Some(&Question { qtype: 1, ..question("e.local") }));
    let data_of = |buffer: &RecordBuffer| -> Vec<u8> {
        records_in(buffer).iter().map(|r| r.data[0]).collect()
    };
    assert_eq!(data_of(&buffers.answers), vec![0, 1]);
    assert_eq!(data_of(&buffers.authorities), vec![2]);
    assert_eq!(data_of(&buffers.additionals), vec![3, 4]);
}

#[test]
fn a_larger_buffer_keeps_its_last_slots() {
    let data = message_with_answers(2);
    let mut buffers = MessageBuffers::new();
    buffers.resize(BufferType::Answer, 3);
    buffers.read(&message_with_answers(3)).unwrap();
    buffers.read(&data).unwrap();
    assert_eq!(
        records_in(&buffers.answers),
        vec![known_answer(0), known_answer(1), known_answer(2)]
    );
    let other = {
        let mut data = header(9, 0, [0, 1, 0, 0]);
        data.extend(record_bytes("x.local", 1, 1, 1, &[9]));
        data
    };
    buffers.read(&other).unwrap();
    assert_eq!(buffers.answers.get(0).unwrap().name, b"x.local".to_vec());
    assert_eq!(buffers.answers.get(1), Some(&known_answer(1)));
    assert_eq!(buffers.answers.get(2), Some(&known_answer(2)));
}

#[test]
fn resizing_cuts_and_fills() {
    let mut buffers = MessageBuffers::new();
    buffers.resize(BufferType::Question, 1);
    assert_eq!(questions_in(&buffers.questions), vec![Question::empty()]);
    buffers.resize(BufferType::Authority, 2);
    assert_eq!(
        records_in(&buffers.authorities),
        vec![ResourceRecord::empty(), ResourceRecord::empty()]
    );
    buffers.resize(BufferType::Additional, 1);
    assert_eq!(buffers.additionals.len(), 1);
    buffers.resize(BufferType::Answer, 0);
    assert_eq!(buffers.answers.len(), 0);

    let mut buffers = MessageBuffers::new();
    buffers.read(&message_with_answers(1)).unwrap();
    buffers.answers.resize(2);
    assert_eq!(records_in(&buffers.answers), vec![known_answer(0), ResourceRecord::empty()]);
    buffers.questions.resize(1);
    assert_eq!(questions_in(&buffers.questions), vec![question("_oscjson._tcp.local")]);
}

#[test]
fn bytes_that_are_no_message_are_malformed() {
    let mut buffers = MessageBuffers::new();
    assert_eq!(buffers.read(b""), Err(ReadError::Malformed));
    assert_eq!(buffers.read(&[0u8; 11]), Err(ReadError::Malformed));
    let truncated = &message_with_answers(1)[..40];
    assert_eq!(buffers.read(truncated), Err(ReadError::Malformed));
    assert_eq!(buffers.read_growing(truncated), (None, 0));
    assert!(read_sections(truncated).is_none());

    let counts_too_much = header(1, 0, [0, 0, 0, 500]);
    assert_eq!(
        buffers.read(&counts_too_much),
        Err(ReadError::NotEnoughWriteSpace {
            tried_to_write: 500,
            buffer_type: BufferType::Additional
        })
    );
    assert_eq!(buffers.read_growing(&counts_too_much), (None, 1));
    assert_eq!(buffers.additionals.len(), 500);
    assert_eq!(records_in(&buffers.answers), vec![ResourceRecord::empty()]);
}

fn server() -> MdnsServer {
    MdnsServer::new("osc-booper-test1234", 8080).unwrap()
}

#[test]
fn unknown_names_get_no_reply() {
    let server = server();
    assert_eq!(server.lookup_answer(1, &question("_http._tcp.local")), None);
    assert_eq!(server.lookup_answer(1, &question("_oscjson._tcp.local.x")), None);
    assert!(server.handle_query(&query(1, &["_http._tcp.local"])).is_empty());
    assert!(server.handle_query(&query(1, &[])).is_empty());
    assert!(server.handle_query(b"garbage").is_empty());
    assert!(server.handle_query(&query(1, &["_oscjson._tcp.local"])[..20]).is_empty());
}

#[test]
fn empty_entries_get_no_reply() {
    let mut store = RecordStore::new();
    assert!(store.insert(b"empty.local", Vec::new()));
    let server = MdnsServer::with_records(store);
    assert_eq!(server.lookup_answer(1, &question("empty.local")), None);
    assert!(server.handle_query(&query(1, &["empty.local"])).is_empty());
}

#[test]
fn three_records_give_one_answer_and_two_additional() {
    let records = vec![
        record("svc.local", ResourceType::Ptr, &wire_name("inst.svc.local")),
        record("inst.svc.local", ResourceType::Txt, b"\x03a=b"),
        record("host.local", ResourceType::A, &[10, 0, 0, 7]),
    ];
    let mut store = RecordStore::new();
    assert!(store.insert(b"svc.local", records));
    let server = MdnsServer::with_records(store);

    let replies = server.handle_query(&query(0xbeef, &["svc.local"]));
    assert_eq!(replies.len(), 1);
    let mut expected = header(0xbeef, 0x8000, [0, 1, 0, 2]);
    expected.extend(record_bytes("svc.local", 12, 1, 120, &wire_name("inst.svc.local")));
    expected.extend(record_bytes("inst.svc.local", 16, 1, 120, b"\x03a=b"));
    expected.extend(record_bytes("host.local", 1, 1, 120, &[10, 0, 0, 7]));
    assert_eq!(replies[0], expected);
    assert_eq!(server.lookup_answer(0xbeef, &question("svc.local")), Some(expected));
}

#[test]
fn a_single_record_gives_an_answer_alone() {
    let mut store = RecordStore::new();
    assert!(store.insert(b"host.local", vec![record("host.local", ResourceType::A, &[10, 0, 0, 7])]));
    let server = MdnsServer::with_records(store);
    let mut expected = header(5, 0x8000, [0, 1, 0, 0]);
    expected.extend(record_bytes("host.local", 1, 1, 120, &[10, 0, 0, 7]));
    assert_eq!(server.lookup_answer(5, &question("host.local")), Some(expected));
}

#[test]
fn each_question_is_answered_on_its_own() {
    let server = server();
    let replies = server.handle_query(&query(
        2,
        &[
            "nobody.local",
            "_oscjson._tcp.local",
            "osc-booper-test1234.oscjson.tcp.local",
            "_oscjson._tcp.local",
            "also.nobody.local",
        ],
    ));
    assert_eq!(replies.len(), 2);
    assert_eq!(replies[0], replies[1]);
    assert_eq!(Some(replies[0].clone()), server.lookup_answer(2, &question("_oscjson._tcp.local")));
}

#[test]
fn service_records_lead_to_the_http_port() {
    let server = server();
    let reply = server.lookup_answer(0x0102, &question("_oscjson._tcp.local")).unwrap();
    let reader = MessageReader::try_parse(&reply).unwrap();
    let head = reader.header();
    assert_eq!(head.id(), 0x0102);
    assert!(head.flags().is_response());
    assert_eq!(head.flags().to_u16(), 0x8000);
    assert_eq!(
        (head.question_count(), head.answer_count(), head.authority_count(), head.additional_count()),
        (0, 1, 0, 3)
    );

    let text = |labels: mdns_proto::wire::NameLabels<'_>| -> String {
        labels.map(|l| String::from_utf8(l.unwrap().to_vec()).unwrap()).collect::<Vec<_>>().join(".")
    };
    let answers: Vec<_> = reader.answers().map(|r| r.unwrap()).collect();
    assert_eq!(answers.len(), 1);
    assert_eq!(text(answers[0].name().labels()), "_oscjson._tcp.local");
    assert_eq!(answers[0].rtype(), WireType::Ptr);
    assert_eq!(answers[0].ttl(), 120);
    assert_eq!(answers[0].rdata(), &wire_name("osc-booper-test1234._oscjson._tcp.local")[..]);

    let more: Vec<_> = reader.additional().map(|r| r.unwrap()).collect();
    assert_eq!(more.len(), 3);
    assert_eq!(text(more[0].name().labels()), "osc-booper-test1234._oscjson._tcp.local");
    assert_eq!(more[0].rtype(), WireType::Txt);
    assert_eq!(more[0].rdata(), b"\x09txtvers=1");
    assert_eq!(text(more[1].name().labels()), "osc-booper-test1234._oscjson._tcp.local");
    assert_eq!(more[1].rtype(), WireType::Srv);
    let mut srv = vec![0, 0, 0, 0, 0x1f, 0x90];
    srv.extend(wire_name("osc-booper-test1234.oscjson.tcp.local"));
    assert_eq!(more[1].rdata(), &srv[..]);
    assert_eq!(text(more[2].name().labels()), "osc-booper-test1234.oscjson.tcp.local");
    assert_eq!(more[2].rtype(), WireType::A);
    assert_eq!(more[2].rdata(), &[127, 0, 0, 1]);
    for r in answers.iter().chain(more.iter()) {
        assert_eq!(r.rclass(), mdns_proto::wire::ResourceClass::In);
        assert_eq!(r.ttl(), 120);
    }
}

#[test]
fn host_records_are_stored_under_the_name_as_written() {
    let server = server();
    let written = Question {
        labels: vec![b"osc-booper-test1234".to_vec(), b"oscjson".to_vec(), b"tcp".to_vec(), b"local".to_vec(), vec![]],
        qtype: 1,
        qclass: 1,
        unicast_response: false,
    };
    assert_eq!(written.name(), b"osc-booper-test1234.oscjson.tcp.local.".to_vec());
    let mut expected = header(4, 0x8000, [0, 1, 0, 0]);
    expected.extend(record_bytes("osc-booper-test1234.oscjson.tcp.local", 1, 1, 120, &[127, 0, 0, 1]));
    assert_eq!(server.lookup_answer(4, &written), Some(expected));
    assert_eq!(server.lookup_answer(4, &question("osc-booper-test1234.oscjson.tcp.local")), None);
}

#[test]
fn service_names_without_a_wire_form_are_refused() {
    assert!(MdnsServer::new("has..dots", 1).is_err());
    assert_eq!(MdnsServer::new("", 1).err(), Some(NameError::EmptyLabel));
    assert_eq!(MdnsServer::new(&"a".repeat(64), 1).err(), Some(NameError::LabelTooLong));
    assert_eq!(
        MdnsServer::new(&format!("{0}.{0}.{0}.{0}", "a".repeat(60)), 1).err(),
        Some(NameError::NameTooLong)
    );
    let mut server = server();
    let before = server.lookup_answer(1, &question("_oscjson._tcp.local"));
    assert_eq!(server.create_records("bad..name", 2), Err(NameError::EmptyLabel));
    assert_eq!(server.lookup_answer(1, &question("_oscjson._tcp.local")), before);
    assert_eq!(server.create_records("other", 2), Ok(()));
    assert_ne!(server.lookup_answer(1, &question("_oscjson._tcp.local")), before);
}

#[test]
fn the_service_takes_a_random_name() {
    let made = announce(9001, 4242);
    assert_eq!(made.service_name.len(), 19);
    assert!(made.service_name.starts_with("osc-booper-"));
    assert!(made.service_name[11..].chars().all(|c| c.is_ascii_alphanumeric()));
    assert_eq!(made.http_port, 4242);
    assert_eq!(made.host_info, host_info(&made.service_name, 9001));
    let reply = made.responder.lookup_answer(1, &question("_oscjson._tcp.local")).unwrap();
    let instance = wire_name(&format!("{}._oscjson._tcp.local", made.service_name));
    assert!(reply.windows(instance.len()).any(|w| w == &instance[..]));

    let other = announce(9001, 4242);
    let third = announce(9001, 4242);
    assert!(made.service_name != other.service_name || other.service_name != third.service_name);
}

#[test]
fn the_announcement_names_the_endpoints() {
    let made = announce_as("abcd1234", 9001, 4242).unwrap();
    assert_eq!(made.service_name, "osc-booper-abcd1234");
    assert_eq!(made.http_port, 4242);
    assert_eq!(made.host_info.name, "osc-booper-abcd1234");
    assert_eq!(made.host_info.osc_ip, "127.0.0.1");
    assert_eq!(made.host_info.osc_port, 9001);
    assert_eq!(made.host_info.osc_transport, Transport::Udp);
    assert_eq!(
        made.host_info.extensions,
        Extensions { access: true, clipmode: false, range: true, type_tag: true, value: true }
    );
    assert_eq!(made.nodes, announced_nodes());
    assert_eq!(made.nodes.len(), 1);
    assert_eq!(made.nodes[0].path, "/avatar");
    assert_eq!(made.nodes[0].access, AccessMode::NoValue);
    let reference = MdnsServer::new("osc-booper-abcd1234", 4242).unwrap();
    assert_eq!(
        made.responder.lookup_answer(3, &question("_oscjson._tcp.local")),
        reference.lookup_answer(3, &question("_oscjson._tcp.local"))
    );
    assert!(announce_as("a.", 1, 2).is_err());
    assert_eq!(announce_as(&"x".repeat(60), 1, 2).err(), Some(NameError::LabelTooLong));
}

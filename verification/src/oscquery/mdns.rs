//! The discovery responder: the records that announce the service, and the
//! replies to the queries that ask for them.

use vstd::prelude::*;
use vstd::string::StringSliceAdditionalSpecFns;
use crate::oscquery::buffers::MessageBuffers;
use crate::oscquery::parse::{
    join_labels, lemma_parse_message_counts, parse_message, MessageView, Question, QuestionView,
};
use crate::oscquery::store::{RecordStore, MAX_RECORDS};
use crate::oscquery::wire::{
    be16, copy_bytes, decode_header, encode_header, encode_message, encode_name,
    encode_name_bytes, encode_records, label_views, labels_fault, labels_from,
    lemma_encode_labels_len, lemma_header_round_trip, lemma_next_dot_skips, name_fault, next_dot,
    push_be16, push_bytes, record_views, split_labels, wire_len, write_records, Header,
    NameError, RecordView, ResourceRecord, ResourceType, CLASS_IN, DOT, FLAG_RESPONSE,
};

verus! {

/// Seconds that a peer may keep a record of this responder.
pub const TTL: u32 = 120;

/// The name that peers ask for when they look for OSCQuery services.
pub open spec fn service_type_name() -> Seq<u8> {
    "_oscjson._tcp.local".spec_bytes()
}

/// The name of the service instance called `service`.
pub open spec fn instance_name(service: Seq<u8>) -> Seq<u8> {
    service + "._oscjson._tcp.local.".spec_bytes()
}

/// The name of the host that runs the instance called `service`.
pub open spec fn host_name(service: Seq<u8>) -> Seq<u8> {
    service + ".oscjson.tcp.local.".spec_bytes()
}

/// The payload of the text record: one string that gives the version of the
/// format.
pub open spec fn txt_payload() -> Seq<u8> {
    "\x09txtvers=1".spec_bytes()
}

/// The payload of the address record: the loopback address.
pub open spec fn loopback_payload() -> Seq<u8> {
    seq![127u8, 0u8, 0u8, 1u8]
}

/// The payload of a service record: priority, weight and port in network
/// order, then the host in wire form.
pub open spec fn srv_payload(priority: u16, weight: u16, port: u16, target: Seq<u8>) -> Seq<u8> {
    be16(priority) + be16(weight) + be16(port) + encode_name(target)
}

/// The record that gives the address of the host of `service`.
pub open spec fn address_record(service: Seq<u8>) -> RecordView {
    RecordView {
        name: host_name(service),
        rtype: ResourceType::A.spec_code(),
        class: CLASS_IN,
        ttl: TTL,
        data: loopback_payload(),
    }
}

/// The records that answer a question for the service type: a pointer to the
/// instance, its text record, its service record and the address of its host.
pub open spec fn service_records(service: Seq<u8>, port: u16) -> Seq<RecordView> {
    seq![
        RecordView {
            name: service_type_name(),
            rtype: ResourceType::Ptr.spec_code(),
            class: CLASS_IN,
            ttl: TTL,
            data: encode_name(instance_name(service)),
        },
        RecordView {
            name: instance_name(service),
            rtype: ResourceType::Txt.spec_code(),
            class: CLASS_IN,
            ttl: TTL,
            data: txt_payload(),
        },
        RecordView {
            name: instance_name(service),
            rtype: ResourceType::Srv.spec_code(),
            class: CLASS_IN,
            ttl: TTL,
            data: srv_payload(0, 0, port, host_name(service)),
        },
        address_record(service),
    ]
}

/// The first of the names of a service that has no wire form, with its
/// fault: the instance, then its host, then the service type.
pub open spec fn announce_fault(service: Seq<u8>) -> Option<NameError> {
    match name_fault(instance_name(service)) {
        Some(e) => Some(e),
        None => match name_fault(host_name(service)) {
            Some(e) => Some(e),
            None => name_fault(service_type_name()),
        },
    }
}

/// The store after the records of `service` were added to it.
pub open spec fn announced(
    store: Map<Seq<u8>, Seq<RecordView>>,
    service: Seq<u8>,
    port: u16,
) -> Map<Seq<u8>, Seq<RecordView>> {
    store.insert(service_type_name(), service_records(service, port)).insert(
        host_name(service),
        seq![address_record(service)],
    )
}

/// The reply to a question for `name` in a query with the given id: nothing
/// where the name owns no records; else one message that carries the id, is
/// marked as a reply, and holds the first record as its answer and the others
/// as additional records.
pub open spec fn reply_for(store: Map<Seq<u8>, Seq<RecordView>>, id: u16, name: Seq<u8>) -> Option<
    Seq<u8>,
> {
    if store.dom().contains(name) && store[name].len() > 0 {
        Some(encode_message(id, FLAG_RESPONSE, store[name].take(1), store[name].skip(1)))
    } else {
        None
    }
}

/// The replies to the questions of a query, in the order of the questions;
/// a question without a reply leaves no gap.
pub open spec fn replies_for(
    store: Map<Seq<u8>, Seq<RecordView>>,
    id: u16,
    questions: Seq<QuestionView>,
) -> Seq<Seq<u8>>
    decreases questions.len(),
{
    if questions.len() == 0 {
        Seq::empty()
    } else {
        let before = replies_for(store, id, questions.drop_last());
        match reply_for(store, id, join_labels(questions.last().labels)) {
            Some(reply) => before.push(reply),
            None => before,
        }
    }
}

/// The datagrams that answer the datagram `data`: none where it is no
/// message.
pub open spec fn replies_to(store: Map<Seq<u8>, Seq<RecordView>>, data: Seq<u8>) -> Seq<Seq<u8>> {
    match parse_message(data) {
        None => Seq::empty(),
        Some(message) => replies_for(store, message.header.id, message.questions),
    }
}

/// A written name in wire form.
pub fn make_dns_label(name: &str) -> (r: Result<Vec<u8>, NameError>)
    ensures
        match r {
            Ok(bytes) => name_fault(name.spec_bytes()).is_none() && bytes@ == encode_name(
                name.spec_bytes(),
            ),
            Err(e) => name_fault(name.spec_bytes()) == Some(e),
        },
{
    encode_name_bytes(name.as_bytes())
}

/// The payload of a service record that points at `target`.
pub fn make_srv_rdata(priority: u16, weight: u16, port: u16, target: &str) -> (r: Result<
    Vec<u8>,
    NameError,
>)
    ensures
        match r {
            Ok(bytes) => name_fault(target.spec_bytes()).is_none() && bytes@ == srv_payload(
                priority,
                weight,
                port,
                target.spec_bytes(),
            ),
            Err(e) => name_fault(target.spec_bytes()) == Some(e),
        },
{
    srv_rdata_for(priority, weight, port, target.as_bytes())
}

/// The payload of a service record that points at `target`.
fn srv_rdata_for(priority: u16, weight: u16, port: u16, target: &[u8]) -> (r: Result<
    Vec<u8>,
    NameError,
>)
    ensures
        match r {
            Ok(bytes) => name_fault(target@).is_none() && bytes@ == srv_payload(
                priority,
                weight,
                port,
                target@,
            ),
            Err(e) => name_fault(target@) == Some(e),
        },
{
    let name: Vec<u8> = match encode_name_bytes(target) {
        Ok(name) => name,
        Err(e) => {
            return Err(e);
        },
    };
    let mut out: Vec<u8> = Vec::new();
    push_be16(&mut out, priority);
    push_be16(&mut out, weight);
    push_be16(&mut out, port);
    push_bytes(&mut out, name.as_slice());
    assert(out@ =~= srv_payload(priority, weight, port, target@));
    Ok(out)
}

/// `front` followed by `back`.
fn concat_bytes(front: &[u8], back: &[u8]) -> (out: Vec<u8>)
    ensures
        out@ == front@ + back@,
{
    let mut out: Vec<u8> = copy_bytes(front);
    push_bytes(&mut out, back);
    out
}

/// The responder's side of discovery: what it knows and how it answers.
pub struct MdnsServer {
    known_records: RecordStore,
}

impl MdnsServer {
    /// The records by the name that owns them.
    pub closed spec fn view(&self) -> Map<Seq<u8>, Seq<RecordView>> {
        self.known_records@
    }

    /// A responder that announces the service `service_name`, whose metadata
    /// are served over HTTP on `http_port` of this host.
    pub fn new(service_name: &str, http_port: u16) -> (r: Result<Self, NameError>)
        ensures
            match r {
                Ok(server) => announce_fault(service_name.spec_bytes()).is_none() && server@
                    == announced(Map::empty(), service_name.spec_bytes(), http_port),
                Err(e) => announce_fault(service_name.spec_bytes()) == Some(e),
            },
    {
        let mut this = MdnsServer { known_records: RecordStore::new() };
        match this.create_records(service_name, http_port) {
            Ok(()) => Ok(this),
            Err(e) => Err(e),
        }
    }

    /// A responder that answers with what `store` holds.
    pub fn with_records(store: RecordStore) -> (server: Self)
        ensures
            server@ == store@,
    {
        MdnsServer { known_records: store }
    }

    /// Adds the records that announce the service `service_name`. A name
    /// without a wire form adds nothing.
    pub fn create_records(&mut self, service_name: &str, http_port: u16) -> (r: Result<
        (),
        NameError,
    >)
        ensures
            match r {
                Ok(()) => announce_fault(service_name.spec_bytes()).is_none() && final(self)@
                    == announced(old(self)@, service_name.spec_bytes(), http_port),
                Err(e) => announce_fault(service_name.spec_bytes()) == Some(e) && final(self)@
                    == old(self)@,
            },
    {
        let service: &[u8] = service_name.as_bytes();
        let service_type: &[u8] = "_oscjson._tcp.local".as_bytes();
        let instance: Vec<u8> = concat_bytes(service, "._oscjson._tcp.local.".as_bytes());
        let host: Vec<u8> = concat_bytes(service, ".oscjson.tcp.local.".as_bytes());

        let ptr_rdata: Vec<u8> = match encode_name_bytes(instance.as_slice()) {
            Ok(bytes) => bytes,
            Err(e) => {
                return Err(e);
            },
        };
        let srv_rdata: Vec<u8> = match srv_rdata_for(0, 0, http_port, host.as_slice()) {
            Ok(bytes) => bytes,
            Err(e) => {
                return Err(e);
            },
        };
        match encode_name_bytes(service_type) {
            Ok(_) => {},
            Err(e) => {
                return Err(e);
            },
        }
        let txt_rdata: Vec<u8> = copy_bytes("\x09txtvers=1".as_bytes());
        proof {
            lemma_encode_labels_len(split_labels(instance@));
            lemma_encode_labels_len(split_labels(host@));
            reveal_strlit("\x09txtvers=1");
            vstd::string::is_ascii_spec_bytes("\x09txtvers=1");
            assert(txt_rdata@.len() == 10);
        }
        let mut records: Vec<ResourceRecord> = Vec::new();
        records.push(
            ResourceRecord {
                name: copy_bytes(service_type),
                rtype: ResourceType::Ptr.code(),
                class: CLASS_IN,
                ttl: TTL,
                data: ptr_rdata,
            },
        );
        records.push(
            ResourceRecord {
                name: copy_bytes(instance.as_slice()),
                rtype: ResourceType::Txt.code(),
                class: CLASS_IN,
                ttl: TTL,
                data: txt_rdata,
            },
        );
        records.push(
            ResourceRecord {
                name: copy_bytes(instance.as_slice()),
                rtype: ResourceType::Srv.code(),
                class: CLASS_IN,
                ttl: TTL,
                data: srv_rdata,
            },
        );
        let address = ResourceRecord {
            name: copy_bytes(host.as_slice()),
            rtype: ResourceType::A.code(),
            class: CLASS_IN,
            ttl: TTL,
            data: vec![127u8, 0u8, 0u8, 1u8],
        };
        let mut host_records: Vec<ResourceRecord> = Vec::new();
        host_records.push(address.duplicate());
        records.push(address);
        proof {
            assert(address@.data =~= loopback_payload());
            assert(record_views(records@) =~= service_records(
                service_name.spec_bytes(),
                http_port,
            ));
            assert(record_views(host_records@) =~= seq![address_record(service_name.spec_bytes())]);
        }
        self.known_records.insert(service_type, records);
        self.known_records.insert(host.as_slice(), host_records);
        Ok(())
    }

    /// Answers one question of a query with the given id.
    pub fn lookup_answer(&self, id: u16, question: &Question) -> (reply: Option<Vec<u8>>)
        ensures
            match reply {
                Some(bytes) => reply_for(self@, id, question.spec_name()) == Some(bytes@),
                None => reply_for(self@, id, question.spec_name()).is_none(),
            },
    {
        let name: Vec<u8> = question.name();
        let records: &Vec<ResourceRecord> = match self.known_records.get(name.as_slice()) {
            Some(records) => records,
            None => {
                return None;
            },
        };
        if records.len() == 0 {
            return None;
        }
        let header = Header {
            id,
            flags: FLAG_RESPONSE,
            question_count: 0,
            answer_count: 1,
            authority_count: 0,
            additional_count: (records.len() - 1) as u16,
        };
        let mut out: Vec<u8> = Vec::new();
        header.write(&mut out);
        write_records(records, 0, 1, &mut out);
        write_records(records, 1, records.len(), &mut out);
        proof {
            let all = record_views(records@);
            assert(all.subrange(0, 1) =~= all.take(1));
            assert(all.subrange(1, all.len() as int) =~= all.skip(1));
            assert(out@ =~= encode_message(id, FLAG_RESPONSE, all.take(1), all.skip(1)));
        }
        Some(out)
    }

    /// Answers a datagram: one reply for each question whose name owns
    /// records here, in the order of the questions. A datagram that is no
    /// message gets no reply.
    pub fn handle_query(&self, data: &[u8]) -> (replies: Vec<Vec<u8>>)
        ensures
            label_views(replies@) == replies_to(self@, data@),
    {
        let mut replies: Vec<Vec<u8>> = Vec::new();
        let mut buffers = MessageBuffers::new();
        let (read, _) = buffers.read_growing(data);
        let header: Header = match read {
            Some(header) => header,
            None => {
                assert(label_views(replies@) =~= Seq::<Seq<u8>>::empty());
                return replies;
            },
        };
        proof {
            lemma_parse_message_counts(data@);
        }
        let ghost message: MessageView = parse_message(data@).unwrap();
        let ghost questions: Seq<QuestionView> = message.questions;
        let mut i: usize = 0;
        proof {
            let held = buffers.questions@;
            assert(held.take(questions.len() as int) =~= questions);
            assert(questions.take(0) =~= Seq::<QuestionView>::empty());
            assert(label_views(replies@) =~= Seq::<Seq<u8>>::empty());
        }
        while i < header.question_count as usize
            invariant
                i <= header.question_count,
                questions.len() == header.question_count,
                buffers.questions@.len() >= questions.len(),
                buffers.questions@.take(questions.len() as int) == questions,
                label_views(replies@) == replies_for(self@, header.id, questions.take(i as int)),
            decreases header.question_count - i,
        {
            proof {
                let upto = questions.take(i + 1);
                assert(upto.drop_last() =~= questions.take(i as int));
                assert(upto.last() == questions[i as int]);
                assert(buffers.questions@.take(questions.len() as int)[i as int]
                    == buffers.questions@[i as int]);
            }
            let reply: Option<Vec<u8>> = match buffers.questions.get(i) {
                Some(question) => self.lookup_answer(header.id, question),
                None => None,
            };
            match reply {
                Some(reply) => {
                    let ghost before = replies@;
                    replies.push(reply);
                    proof {
                        assert(label_views(replies@) =~= label_views(before).push(reply@));
                    }
                },
                None => {},
            }
            i += 1;
        }
        proof {
            assert(questions.take(i as int) =~= questions);
        }
        replies
    }
}

/// Records written one list after the other are the records of both lists
/// written as one.
pub proof fn lemma_encode_records_concat(front: Seq<RecordView>, back: Seq<RecordView>)
    ensures
        encode_records(front + back) == encode_records(front) + encode_records(back),
    decreases back.len(),
{
    if back.len() == 0 {
        assert(front + back =~= front);
        assert(encode_records(front) + encode_records(back) =~= encode_records(front));
    } else {
        lemma_encode_records_concat(front, back.drop_last());
        assert((front + back).drop_last() =~= front + back.drop_last());
        assert((front + back).last() == back.last());
        assert(encode_records(front + back) =~= encode_records(front) + encode_records(back));
    }
}

/// A name that owns records is answered with one message that holds all of
/// them, as they are stored and in their order: the first as the answer, the
/// others as additional records. Its header carries the id of the query and
/// the mark of a reply, and counts one answer and the other records.
pub proof fn lemma_reply_holds_all_records(
    store: Map<Seq<u8>, Seq<RecordView>>,
    id: u16,
    name: Seq<u8>,
)
    requires
        store.dom().contains(name),
        0 < store[name].len() <= MAX_RECORDS,
    ensures
        ({
            let header = Header {
                id,
                flags: FLAG_RESPONSE,
                question_count: 0,
                answer_count: 1,
                authority_count: 0,
                additional_count: (store[name].len() - 1) as u16,
            };
            &&& reply_for(store, id, name) == Some(
                encode_header(header) + encode_records(store[name]),
            )
            &&& decode_header(reply_for(store, id, name).unwrap()) == Some(header)
        }),
{
    let records = store[name];
    lemma_encode_records_concat(records.take(1), records.skip(1));
    assert(records.take(1) + records.skip(1) =~= records);
    let header = Header {
        id,
        flags: FLAG_RESPONSE,
        question_count: 0,
        answer_count: 1,
        authority_count: 0,
        additional_count: (records.len() - 1) as u16,
    };
    assert(encode_message(id, FLAG_RESPONSE, records.take(1), records.skip(1)) =~= encode_header(
        header,
    ) + encode_records(records));
    lemma_header_round_trip(header, encode_records(records));
}

/// Questions for names that own no records get no reply at all.
pub proof fn lemma_unknown_names_get_no_reply(
    store: Map<Seq<u8>, Seq<RecordView>>,
    id: u16,
    questions: Seq<QuestionView>,
)
    requires
        forall|i: int|
            0 <= i < questions.len() ==> !store.dom().contains(
                join_labels(#[trigger] questions[i].labels),
            ),
    ensures
        replies_for(store, id, questions) == Seq::<Seq<u8>>::empty(),
    decreases questions.len(),
{
    if questions.len() > 0 {
        let front = questions.drop_last();
        assert forall|i: int| 0 <= i < front.len() implies !store.dom().contains(
            join_labels(#[trigger] front[i].labels),
        ) by {
            assert(front[i] == questions[i]);
        }
        lemma_unknown_names_get_no_reply(store, id, front);
        assert(!store.dom().contains(join_labels(questions[questions.len() - 1].labels)));
    }
}

/// Up to a dot, the bytes from `from` on are one label.
proof fn lemma_label_before_dot(s: Seq<u8>, from: int, dot: int)
    requires
        0 <= from <= dot < s.len(),
        s[dot] == DOT,
        forall|k: int| from <= k < dot ==> s[k] != DOT,
    ensures
        labels_from(s, from) == seq![s.subrange(from, dot)] + labels_from(s, dot + 1),
{
    lemma_next_dot_skips(s, from, dot);
    assert(next_dot(s, dot) == dot);
}

/// Without a dot, the bytes from `from` on are one label.
proof fn lemma_last_label(s: Seq<u8>, from: int)
    requires
        0 <= from <= s.len(),
        forall|k: int| from <= k < s.len() ==> s[k] != DOT,
    ensures
        labels_from(s, from) == seq![s.subrange(from, s.len() as int)],
{
    lemma_next_dot_skips(s, from, s.len() as int);
}

/// Four labels without a fault, short enough together, make a name without
/// a fault.
proof fn lemma_four_sound_labels(a: Seq<u8>, b: Seq<u8>, c: Seq<u8>, d: Seq<u8>)
    requires
        0 < a.len() <= 63,
        0 < b.len() <= 63,
        0 < c.len() <= 63,
        0 < d.len() <= 63,
        a.len() + b.len() + c.len() + d.len() + 5 <= 255,
    ensures
        labels_fault(seq![a, b, c, d]).is_none(),
        wire_len(seq![a, b, c, d]) == a.len() + b.len() + c.len() + d.len() + 5,
{
    let l4 = seq![a, b, c, d];
    let l3 = seq![b, c, d];
    let l2 = seq![c, d];
    let l1 = seq![d];
    assert(l4.drop_first() =~= l3);
    assert(l3.drop_first() =~= l2);
    assert(l2.drop_first() =~= l1);
    assert(l1.drop_first() =~= Seq::<Seq<u8>>::empty());
    assert(labels_fault(l1.drop_first()).is_none());
    assert(wire_len(l1.drop_first()) == 1);
    assert(labels_fault(l1).is_none());
    assert(labels_fault(l2).is_none());
    assert(labels_fault(l3).is_none());
    assert(wire_len(l1) == d.len() + 2);
    assert(wire_len(l2) == c.len() + d.len() + 3);
    assert(wire_len(l3) == b.len() + c.len() + d.len() + 4);
}

/// A service whose name is one label, that is, up to 63 bytes without a dot,
/// can be announced: the names of the instance, of its host and of the
/// service type all have a wire form.
pub proof fn lemma_one_label_can_be_announced(service: Seq<u8>)
    requires
        0 < service.len() <= 63,
        forall|i: int| 0 <= i < service.len() ==> service[i] != DOT,
    ensures
        announce_fault(service).is_none(),
{
    let n = service.len() as int;
    reveal_strlit("._oscjson._tcp.local.");
    reveal_strlit(".oscjson.tcp.local.");
    reveal_strlit("_oscjson._tcp.local");
    vstd::string::is_ascii_spec_bytes("._oscjson._tcp.local.");
    vstd::string::is_ascii_spec_bytes(".oscjson.tcp.local.");
    vstd::string::is_ascii_spec_bytes("_oscjson._tcp.local");

    let instance_tail = "._oscjson._tcp.local.".spec_bytes();
    assert(instance_tail =~= seq![
        46u8, 95u8, 111u8, 115u8, 99u8, 106u8, 115u8, 111u8, 110u8, 46u8, 95u8, 116u8, 99u8,
        112u8, 46u8, 108u8, 111u8, 99u8, 97u8, 108u8, 46u8,
    ]);
    let instance = instance_name(service);
    let s = instance.drop_last();
    assert(s.len() == n + 20);
    assert forall|k: int| 0 <= k < n implies s[k] != DOT by {
        assert(s[k] == service[k]);
    }
    assert forall|k: int| n <= k < n + 20 implies s[k] == instance_tail[k - n] by {}
    lemma_label_before_dot(s, 0, n);
    lemma_label_before_dot(s, n + 1, n + 9);
    lemma_label_before_dot(s, n + 10, n + 14);
    lemma_last_label(s, n + 15);
    assert(split_labels(instance) =~= seq![
        s.subrange(0, n),
        s.subrange(n + 1, n + 9),
        s.subrange(n + 10, n + 14),
        s.subrange(n + 15, n + 20),
    ]);
    lemma_four_sound_labels(
        s.subrange(0, n),
        s.subrange(n + 1, n + 9),
        s.subrange(n + 10, n + 14),
        s.subrange(n + 15, n + 20),
    );
    assert(name_fault(instance).is_none());

    let host_tail = ".oscjson.tcp.local.".spec_bytes();
    assert(host_tail =~= seq![
        46u8, 111u8, 115u8, 99u8, 106u8, 115u8, 111u8, 110u8, 46u8, 116u8, 99u8, 112u8, 46u8,
        108u8, 111u8, 99u8, 97u8, 108u8, 46u8,
    ]);
    let host = host_name(service);
    let h = host.drop_last();
    assert(h.len() == n + 18);
    assert forall|k: int| 0 <= k < n implies h[k] != DOT by {
        assert(h[k] == service[k]);
    }
    assert forall|k: int| n <= k < n + 18 implies h[k] == host_tail[k - n] by {}
    lemma_label_before_dot(h, 0, n);
    lemma_label_before_dot(h, n + 1, n + 8);
    lemma_label_before_dot(h, n + 9, n + 12);
    lemma_last_label(h, n + 13);
    assert(split_labels(host) =~= seq![
        h.subrange(0, n),
        h.subrange(n + 1, n + 8),
        h.subrange(n + 9, n + 12),
        h.subrange(n + 13, n + 18),
    ]);
    lemma_four_sound_labels(
        h.subrange(0, n),
        h.subrange(n + 1, n + 8),
        h.subrange(n + 9, n + 12),
        h.subrange(n + 13, n + 18),
    );
    assert(name_fault(host).is_none());

    let t = service_type_name();
    assert(t =~= seq![
        95u8, 111u8, 115u8, 99u8, 106u8, 115u8, 111u8, 110u8, 46u8, 95u8, 116u8, 99u8, 112u8,
        46u8, 108u8, 111u8, 99u8, 97u8, 108u8,
    ]);
    lemma_label_before_dot(t, 0, 8);
    lemma_label_before_dot(t, 9, 13);
    lemma_last_label(t, 14);
    let labels = seq![t.subrange(0, 8), t.subrange(9, 13), t.subrange(14, 19)];
    assert(split_labels(t) =~= labels);
    assert(labels.drop_first() =~= seq![t.subrange(9, 13), t.subrange(14, 19)]);
    assert(labels.drop_first().drop_first() =~= seq![t.subrange(14, 19)]);
    assert(labels.drop_first().drop_first().drop_first() =~= Seq::<Seq<u8>>::empty());
    assert(labels_fault(labels.drop_first().drop_first().drop_first()).is_none());
    assert(wire_len(labels.drop_first().drop_first().drop_first()) == 1);
    assert(labels_fault(labels.drop_first().drop_first()).is_none());
    assert(labels_fault(labels.drop_first()).is_none());
    assert(wire_len(labels.drop_first().drop_first()) == 7);
    assert(wire_len(labels.drop_first()) == 12);
    assert(name_fault(t).is_none());
}

} // verus!

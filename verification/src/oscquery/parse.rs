//! Reading a discovery message: its header, its questions and its records.
//!
//! The single question and the single record are read by `mdns_proto`; how
//! many of them a message holds, and in which order, is decided here.

use vstd::prelude::*;
use mdns_proto::error::ParseError;
use mdns_proto::wire::{Header as ProtoHeader, QuestionRef, Ref};
use crate::oscquery::wire::{
    decode_header, label_views, push_bytes, record_views, Header, RecordView, ResourceRecord,
    DOT,
};

verus! {

/// The reason that `mdns_proto` gives for bytes it cannot read. It is passed
/// on unopened: nothing here depends on what it says.
#[verifier::external_type_specification]
#[verifier::external_body]
pub struct ExParseError(ParseError);

/// A question as it stands in a message: the labels of the name asked for,
/// and what is asked about it.
#[derive(Debug, Clone, PartialEq, Eq)]
pub struct Question {
    /// The labels of the name, compression undone.
    pub labels: Vec<Vec<u8>>,
    /// The kind of record asked for, as its number.
    pub qtype: u16,
    /// The class asked for, without the bit that asks for a unicast reply.
    pub qclass: u16,
    /// Whether a unicast reply is asked for.
    pub unicast_response: bool,
}

/// What a question holds.
pub struct QuestionView {
    /// The labels of the name, compression undone.
    pub labels: Seq<Seq<u8>>,
    /// The kind of record asked for, as its number.
    pub qtype: u16,
    /// The class asked for, without the bit that asks for a unicast reply.
    pub qclass: u16,
    /// Whether a unicast reply is asked for.
    pub unicast_response: bool,
}

impl View for Question {
    type V = QuestionView;

    open spec fn view(&self) -> QuestionView {
        QuestionView {
            labels: label_views(self.labels@),
            qtype: self.qtype,
            qclass: self.qclass,
            unicast_response: self.unicast_response,
        }
    }
}

/// A record as it stands in a message, its name still in labels and the
/// cache-flush bit apart from the class.
pub struct WireRecord {
    /// The labels of the owner's name, compression undone.
    pub labels: Vec<Vec<u8>>,
    /// The kind of record, as its number.
    pub rtype: u16,
    /// The class, without the cache-flush bit.
    pub rclass: u16,
    /// Whether the cache-flush bit was set.
    pub cache_flush: bool,
    /// Seconds that the record may be kept.
    pub ttl: u32,
    /// The payload, as it stands in the message.
    pub rdata: Vec<u8>,
}

/// What a record of a message holds.
pub struct WireRecordView {
    /// The labels of the owner's name, compression undone.
    pub labels: Seq<Seq<u8>>,
    /// The kind of record, as its number.
    pub rtype: u16,
    /// The class, without the cache-flush bit.
    pub rclass: u16,
    /// Whether the cache-flush bit was set.
    pub cache_flush: bool,
    /// Seconds that the record may be kept.
    pub ttl: u32,
    /// The payload, as it stands in the message.
    pub rdata: Seq<u8>,
}

impl View for WireRecord {
    type V = WireRecordView;

    open spec fn view(&self) -> WireRecordView {
        WireRecordView {
            labels: label_views(self.labels@),
            rtype: self.rtype,
            rclass: self.rclass,
            cache_flush: self.cache_flush,
            ttl: self.ttl,
            rdata: self.rdata@,
        }
    }
}

/// The question that starts at `offset` in `data` and the offset behind it, or
/// nothing where the bytes there are no question.
pub uninterp spec fn question_at(data: Seq<u8>, offset: int) -> Option<(QuestionView, int)>;

/// The record that starts at `offset` in `data` and the offset behind it, or
/// nothing where the bytes there are no record.
pub uninterp spec fn record_at(data: Seq<u8>, offset: int) -> Option<(WireRecordView, int)>;

/// Reads the header with `mdns_proto::wire::Header::try_parse`. That function
/// fails on fewer than twelve bytes and on nothing else; it reads six numbers
/// of sixteen bits in network order: the id, the flags and the four counts.
#[verifier::external_body]
pub(crate) fn parse_header(data: &[u8]) -> (r: Result<Header, ParseError>)
    ensures
        match r {
            Ok(header) => decode_header(data@) == Some(header),
            Err(_) => decode_header(data@).is_none(),
        },
{
    let (h, _) = ProtoHeader::try_parse(data)?;
    Ok(
        Header {
            id: h.id(),
            flags: h.flags().to_u16(),
            question_count: h.question_count(),
            answer_count: h.answer_count(),
            authority_count: h.authority_count(),
            additional_count: h.additional_count(),
        },
    )
}

/// Reads one question with `mdns_proto::wire::QuestionRef::try_parse` and
/// walks the labels of its name, following compression pointers. The result
/// depends on the bytes and the offset alone; `question_at` names it. A name
/// whose labels cannot be walked counts as no question.
#[verifier::external_body]
fn parse_question(data: &[u8], offset: usize) -> (r: Result<(Question, usize), ParseError>)
    ensures
        match r {
            Ok((question, next)) => question_at(data@, offset as int) == Some(
                (question@, next as int),
            ),
            Err(_) => question_at(data@, offset as int).is_none(),
        },
{
    let (q, next) = QuestionRef::try_parse(data, offset)?;
    let labels = q.qname().labels().map(|l| l.map(<[u8]>::to_vec)).collect::<Result<_, _>>()?;
    let (qtype, qclass) = (q.qtype().to_u16(), q.qclass().to_u16());
    Ok((Question { labels, qtype, qclass, unicast_response: q.unicast_response_requested() }, next))
}

/// Reads one record with `mdns_proto::wire::Ref::try_parse` and walks the
/// labels of its name, following compression pointers. The result depends on
/// the bytes and the offset alone; `record_at` names it. A name whose labels
/// cannot be walked counts as no record.
#[verifier::external_body]
fn parse_record(data: &[u8], offset: usize) -> (r: Result<(WireRecord, usize), ParseError>)
    ensures
        match r {
            Ok((record, next)) => record_at(data@, offset as int) == Some((record@, next as int)),
            Err(_) => record_at(data@, offset as int).is_none(),
        },
{
    let (r, next) = Ref::try_parse(data, offset)?;
    let labels = r.name().labels().map(|l| l.map(<[u8]>::to_vec)).collect::<Result<_, _>>()?;
    let (rtype, rclass, rdata) = (r.rtype().to_u16(), r.rclass().to_u16(), r.rdata().to_vec());
    Ok((WireRecord { labels, rtype, rclass, cache_flush: r.cache_flush(), ttl: r.ttl(), rdata }, next))
}

/// Labels written one after the other with a dot between them.
pub open spec fn join_labels(labels: Seq<Seq<u8>>) -> Seq<u8>
    decreases labels.len(),
{
    if labels.len() == 0 {
        Seq::empty()
    } else if labels.len() == 1 {
        labels[0]
    } else {
        join_labels(labels.drop_last()) + seq![DOT] + labels.last()
    }
}

/// The bit of a record's class field that asks caches to drop older records.
pub const CACHE_FLUSH: u16 = 0x8000;

/// The record that a record of a message stands for: the name written out and
/// the class field as it was sent.
pub open spec fn record_of(wire: WireRecordView) -> RecordView {
    RecordView {
        name: join_labels(wire.labels),
        rtype: wire.rtype,
        class: if wire.cache_flush {
            wire.rclass | CACHE_FLUSH
        } else {
            wire.rclass
        },
        ttl: wire.ttl,
        data: wire.rdata,
    }
}

/// Writes labels one after the other with a dot between them.
pub fn join_label_list(labels: &Vec<Vec<u8>>) -> (name: Vec<u8>)
    ensures
        name@ == join_labels(label_views(labels@)),
{
    let ghost all: Seq<Seq<u8>> = label_views(labels@);
    let mut name: Vec<u8> = Vec::new();
    let mut i: usize = 0;
    proof {
        assert(all.take(0) =~= Seq::<Seq<u8>>::empty());
    }
    while i < labels.len()
        invariant
            i <= labels@.len(),
            all == label_views(labels@),
            name@ == join_labels(all.take(i as int)),
        decreases labels@.len() - i,
    {
        let ghost before = name@;
        if i > 0 {
            name.push(DOT);
        }
        push_bytes(&mut name, labels[i].as_slice());
        proof {
            let next = all.take(i + 1);
            assert(next.drop_last() =~= all.take(i as int));
            assert(next.last() == labels@[i as int]@);
            if i == 0 {
                assert(name@ =~= next[0]);
            } else {
                assert(name@ =~= before + seq![DOT] + next.last());
            }
        }
        i += 1;
    }
    proof {
        assert(all.take(i as int) =~= all);
    }
    name
}

impl Question {
    /// The name asked for, written with dots.
    pub open spec fn spec_name(&self) -> Seq<u8> {
        join_labels(self@.labels)
    }

    /// The name asked for, written with dots.
    pub fn name(&self) -> (name: Vec<u8>)
        ensures
            name@ == self.spec_name(),
    {
        join_label_list(&self.labels)
    }

    /// A question that asks nothing; it fills the unused slots of a buffer.
    pub fn empty() -> (question: Self)
        ensures
            question@ == (QuestionView {
                labels: Seq::empty(),
                qtype: 0,
                qclass: 0,
                unicast_response: false,
            }),
    {
        let question = Question {
            labels: Vec::new(),
            qtype: 0,
            qclass: 0,
            unicast_response: false,
        };
        assert(question@.labels =~= Seq::<Seq<u8>>::empty());
        question
    }
}

impl WireRecord {
    /// The record with its name written out.
    pub fn into_record(self) -> (record: ResourceRecord)
        ensures
            record@ == record_of(self@),
    {
        let name: Vec<u8> = join_label_list(&self.labels);
        let class: u16 = if self.cache_flush {
            self.rclass | CACHE_FLUSH
        } else {
            self.rclass
        };
        ResourceRecord { name, rtype: self.rtype, class, ttl: self.ttl, data: self.rdata }
    }
}

/// The views of the questions in `questions`.
pub open spec fn question_views(questions: Seq<Question>) -> Seq<QuestionView> {
    questions.map_values(|q: Question| q@)
}

/// The first `count` questions from `start` on, and the offset behind them;
/// nothing if one of them cannot be read.
pub open spec fn questions_read(data: Seq<u8>, start: int, count: nat) -> Option<
    (Seq<QuestionView>, int),
>
    decreases count,
{
    if count == 0 {
        Some((Seq::empty(), start))
    } else {
        match questions_read(data, start, (count - 1) as nat) {
            None => None,
            Some((questions, at)) => match question_at(data, at) {
                None => None,
                Some((question, next)) => Some((questions.push(question), next)),
            },
        }
    }
}

/// The first `count` records from `start` on, and the offset behind them;
/// nothing if one of them cannot be read.
pub open spec fn records_read(data: Seq<u8>, start: int, count: nat) -> Option<
    (Seq<RecordView>, int),
>
    decreases count,
{
    if count == 0 {
        Some((Seq::empty(), start))
    } else {
        match records_read(data, start, (count - 1) as nat) {
            None => None,
            Some((records, at)) => match record_at(data, at) {
                None => None,
                Some((record, next)) => Some((records.push(record_of(record)), next)),
            },
        }
    }
}

/// A message taken apart.
pub struct MessageView {
    pub header: Header,
    pub questions: Seq<QuestionView>,
    pub answers: Seq<RecordView>,
    pub authorities: Seq<RecordView>,
    pub additionals: Seq<RecordView>,
}

/// What `data` holds as a message: the header, then as many questions,
/// answers, authority records and additional records as the header counts.
/// Nothing if the header or one of these cannot be read.
pub open spec fn parse_message(data: Seq<u8>) -> Option<MessageView> {
    match decode_header(data) {
        None => None,
        Some(header) => match questions_read(data, 12, header.question_count as nat) {
            None => None,
            Some((questions, a)) => match records_read(data, a, header.answer_count as nat) {
                None => None,
                Some((answers, b)) => match records_read(
                    data,
                    b,
                    header.authority_count as nat,
                ) {
                    None => None,
                    Some((authorities, c)) => match records_read(
                        data,
                        c,
                        header.additional_count as nat,
                    ) {
                        None => None,
                        Some((additionals, _)) => Some(
                            MessageView { header, questions, answers, authorities, additionals },
                        ),
                    },
                },
            },
        }
    }
}

/// Once a question cannot be read, no longer run of questions can.
pub proof fn lemma_questions_read_fails_on(data: Seq<u8>, start: int, failed: nat, count: nat)
    requires
        failed <= count,
        questions_read(data, start, failed).is_none(),
    ensures
        questions_read(data, start, count).is_none(),
    decreases count,
{
    if failed < count {
        lemma_questions_read_fails_on(data, start, failed, (count - 1) as nat);
    }
}

/// Once a record cannot be read, no longer run of records can.
pub proof fn lemma_records_read_fails_on(data: Seq<u8>, start: int, failed: nat, count: nat)
    requires
        failed <= count,
        records_read(data, start, failed).is_none(),
    ensures
        records_read(data, start, count).is_none(),
    decreases count,
{
    if failed < count {
        lemma_records_read_fails_on(data, start, failed, (count - 1) as nat);
    }
}

/// Reads `count` questions from `start` on.
pub fn read_questions(data: &[u8], start: usize, count: u16) -> (r: Option<(Vec<Question>, usize)>)
    ensures
        match r {
            Some((questions, end)) => questions_read(data@, start as int, count as nat) == Some(
                (question_views(questions@), end as int),
            ),
            None => questions_read(data@, start as int, count as nat).is_none(),
        },
{
    let mut questions: Vec<Question> = Vec::new();
    let mut at: usize = start;
    let mut i: u16 = 0;
    proof {
        assert(question_views(questions@) =~= Seq::<QuestionView>::empty());
    }
    while i < count
        invariant
            i <= count,
            questions_read(data@, start as int, i as nat) == Some(
                (question_views(questions@), at as int),
            ),
        decreases count - i,
    {
        match parse_question(data, at) {
            Err(_) => {
                proof {
                    assert(questions_read(data@, start as int, (i + 1) as nat).is_none());
                    lemma_questions_read_fails_on(
                        data@,
                        start as int,
                        (i + 1) as nat,
                        count as nat,
                    );
                }
                return None;
            },
            Ok((question, next)) => {
                let ghost before = questions@;
                questions.push(question);
                proof {
                    assert(question_views(questions@) =~= question_views(before).push(question@));
                }
                at = next;
            },
        }
        i += 1;
    }
    Some((questions, at))
}

/// Reads `count` records from `start` on.
pub fn read_records(data: &[u8], start: usize, count: u16) -> (r: Option<
    (Vec<ResourceRecord>, usize),
>)
    ensures
        match r {
            Some((records, end)) => records_read(data@, start as int, count as nat) == Some(
                (record_views(records@), end as int),
            ),
            None => records_read(data@, start as int, count as nat).is_none(),
        },
{
    let mut records: Vec<ResourceRecord> = Vec::new();
    let mut at: usize = start;
    let mut i: u16 = 0;
    proof {
        assert(record_views(records@) =~= Seq::<RecordView>::empty());
    }
    while i < count
        invariant
            i <= count,
            records_read(data@, start as int, i as nat) == Some(
                (record_views(records@), at as int),
            ),
        decreases count - i,
    {
        match parse_record(data, at) {
            Err(_) => {
                proof {
                    assert(records_read(data@, start as int, (i + 1) as nat).is_none());
                    lemma_records_read_fails_on(data@, start as int, (i + 1) as nat, count as nat);
                }
                return None;
            },
            Ok((wire, next)) => {
                let ghost before = records@;
                let record: ResourceRecord = wire.into_record();
                records.push(record);
                proof {
                    assert(record_views(records@) =~= record_views(before).push(record@));
                }
                at = next;
            },
        }
        i += 1;
    }
    Some((records, at))
}

/// A message read whole, whatever its counts.
pub struct Message {
    pub header: Header,
    pub questions: Vec<Question>,
    pub answers: Vec<ResourceRecord>,
    pub authorities: Vec<ResourceRecord>,
    pub additionals: Vec<ResourceRecord>,
}

impl View for Message {
    type V = MessageView;

    open spec fn view(&self) -> MessageView {
        MessageView {
            header: self.header,
            questions: question_views(self.questions@),
            answers: record_views(self.answers@),
            authorities: record_views(self.authorities@),
            additionals: record_views(self.additionals@),
        }
    }
}

/// Takes a datagram apart.
pub fn read_sections(data: &[u8]) -> (r: Option<Message>)
    ensures
        match r {
            Some(message) => parse_message(data@) == Some(message@),
            None => parse_message(data@).is_none(),
        },
{
    let header: Header = match parse_header(data) {
        Ok(header) => header,
        Err(_) => {
            return None;
        },
    };
    let (questions, a) = match read_questions(data, 12, header.question_count) {
        Some(found) => found,
        None => {
            return None;
        },
    };
    let (answers, b) = match read_records(data, a, header.answer_count) {
        Some(found) => found,
        None => {
            return None;
        },
    };
    let (authorities, c) = match read_records(data, b, header.authority_count) {
        Some(found) => found,
        None => {
            return None;
        },
    };
    let (additionals, _) = match read_records(data, c, header.additional_count) {
        Some(found) => found,
        None => {
            return None;
        },
    };
    Some(Message { header, questions, answers, authorities, additionals })
}

/// However many entries a part of a read message has, its header counts them.
pub proof fn lemma_questions_read_len(data: Seq<u8>, start: int, count: nat)
    ensures
        questions_read(data, start, count) matches Some((questions, _)) ==> questions.len()
            == count,
    decreases count,
{
    if count > 0 {
        lemma_questions_read_len(data, start, (count - 1) as nat);
    }
}

/// However many entries a part of a read message has, its header counts them.
pub proof fn lemma_records_read_len(data: Seq<u8>, start: int, count: nat)
    ensures
        records_read(data, start, count) matches Some((records, _)) ==> records.len() == count,
    decreases count,
{
    if count > 0 {
        lemma_records_read_len(data, start, (count - 1) as nat);
    }
}

/// A message holds as many entries in each part as its header counts.
pub proof fn lemma_parse_message_counts(data: Seq<u8>)
    ensures
        parse_message(data) matches Some(message) ==> {
            &&& decode_header(data) == Some(message.header)
            &&& message.questions.len() == message.header.question_count
            &&& message.answers.len() == message.header.answer_count
            &&& message.authorities.len() == message.header.authority_count
            &&& message.additionals.len() == message.header.additional_count
        },
{
    match decode_header(data) {
        None => {},
        Some(header) => {
            lemma_questions_read_len(data, 12, header.question_count as nat);
            match questions_read(data, 12, header.question_count as nat) {
                None => {},
                Some((_, a)) => {
                    lemma_records_read_len(data, a, header.answer_count as nat);
                    match records_read(data, a, header.answer_count as nat) {
                        None => {},
                        Some((_, b)) => {
                            lemma_records_read_len(data, b, header.authority_count as nat);
                            match records_read(data, b, header.authority_count as nat) {
                                None => {},
                                Some((_, c)) => {
                                    lemma_records_read_len(
                                        data,
                                        c,
                                        header.additional_count as nat,
                                    );
                                },
                            }
                        },
                    }
                },
            }
        },
    }
}

} // verus!

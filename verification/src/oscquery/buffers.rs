//! The buffers that a message is read into.
//!
//! How many questions and records a message holds is not known before it is
//! read. A reader is therefore handed buffers of some size, and where one of
//! them is too small it says which and how many slots are needed. The caller
//! gives that buffer the slots and has the same bytes read again.

use vstd::prelude::*;
use smallvec::SmallVec;
use crate::oscquery::parse::{
    lemma_parse_message_counts, parse_header, parse_message, question_views, read_sections,
    Message, MessageView, Question, QuestionView,
};
use crate::oscquery::wire::{decode_header, record_views, Header, RecordView, ResourceRecord};

verus! {

/// Slots for questions, a few of them without an allocation.
#[verifier::external_body]
pub struct QuestionBuffer {
    slots: SmallVec<[Question; 4]>,
}

/// Slots for records, one of them without an allocation.
#[verifier::external_body]
pub struct RecordBuffer {
    slots: SmallVec<[ResourceRecord; 1]>,
}

/// The questions in the slots of a buffer, in the order of the slots.
pub uninterp spec fn question_slots(buffer: QuestionBuffer) -> Seq<Question>;

/// The records in the slots of a buffer, in the order of the slots.
pub uninterp spec fn record_slots(buffer: RecordBuffer) -> Seq<ResourceRecord>;

/// `SmallVec::new`: a buffer without slots.
#[verifier::external_body]
fn new_question_buffer() -> (buffer: QuestionBuffer)
    ensures
        question_slots(buffer) == Seq::<Question>::empty(),
{
    QuestionBuffer { slots: SmallVec::new() }
}

/// `SmallVec::len`: the number of slots.
#[verifier::external_body]
fn question_buffer_len(buffer: &QuestionBuffer) -> (len: usize)
    ensures
        len == question_slots(*buffer).len(),
{
    buffer.slots.len()
}

/// `SmallVec::resize`: slots past `len` are dropped; where slots are missing,
/// copies of `value` are appended until there are `len`.
#[verifier::external_body]
fn resize_question_buffer(buffer: &mut QuestionBuffer, len: usize, value: Question)
    ensures
        question_slots(*final(buffer)).len() == len,
        forall|i: int|
            0 <= i < len ==> (#[trigger] question_slots(*final(buffer))[i])@ == (if i
                < question_slots(*old(buffer)).len() {
                question_slots(*old(buffer))[i]@
            } else {
                value@
            }),
{
    buffer.slots.resize(len, value)
}

/// Indexing a `SmallVec`: the slot at `at`.
#[verifier::external_body]
fn question_slot(buffer: &QuestionBuffer, at: usize) -> (slot: &Question)
    requires
        at < question_slots(*buffer).len(),
    ensures
        *slot == question_slots(*buffer)[at as int],
{
    &buffer.slots[at]
}

/// Assigning through the index of a `SmallVec`: the slot at `at` takes
/// `value`, the others keep what they hold.
#[verifier::external_body]
fn set_question_slot(buffer: &mut QuestionBuffer, at: usize, value: Question)
    requires
        at < question_slots(*old(buffer)).len(),
    ensures
        question_slots(*final(buffer)) == question_slots(*old(buffer)).update(at as int, value),
{
    buffer.slots[at] = value;
}

/// `SmallVec::new`: a buffer without slots.
#[verifier::external_body]
fn new_record_buffer() -> (buffer: RecordBuffer)
    ensures
        record_slots(buffer) == Seq::<ResourceRecord>::empty(),
{
    RecordBuffer { slots: SmallVec::new() }
}

/// `SmallVec::len`: the number of slots.
#[verifier::external_body]
fn record_buffer_len(buffer: &RecordBuffer) -> (len: usize)
    ensures
        len == record_slots(*buffer).len(),
{
    buffer.slots.len()
}

/// `SmallVec::resize`: slots past `len` are dropped; where slots are missing,
/// copies of `value` are appended until there are `len`.
#[verifier::external_body]
fn resize_record_buffer(buffer: &mut RecordBuffer, len: usize, value: ResourceRecord)
    ensures
        record_slots(*final(buffer)).len() == len,
        forall|i: int|
            0 <= i < len ==> (#[trigger] record_slots(*final(buffer))[i])@ == (if i < record_slots(
                *old(buffer),
            ).len() {
                record_slots(*old(buffer))[i]@
            } else {
                value@
            }),
{
    buffer.slots.resize(len, value)
}

/// Indexing a `SmallVec`: the slot at `at`.
#[verifier::external_body]
fn record_slot(buffer: &RecordBuffer, at: usize) -> (slot: &ResourceRecord)
    requires
        at < record_slots(*buffer).len(),
    ensures
        *slot == record_slots(*buffer)[at as int],
{
    &buffer.slots[at]
}

/// Assigning through the index of a `SmallVec`: the slot at `at` takes
/// `value`, the others keep what they hold.
#[verifier::external_body]
fn set_record_slot(buffer: &mut RecordBuffer, at: usize, value: ResourceRecord)
    requires
        at < record_slots(*old(buffer)).len(),
    ensures
        record_slots(*final(buffer)) == record_slots(*old(buffer)).update(at as int, value),
{
    buffer.slots[at] = value;
}

impl QuestionBuffer {
    /// What the slots hold.
    pub open spec fn view(&self) -> Seq<QuestionView> {
        question_views(question_slots(*self))
    }

    /// The number of slots.
    pub fn len(&self) -> (len: usize)
        ensures
            len == self@.len(),
    {
        question_buffer_len(self)
    }

    /// The question in the slot at `at`, if there is such a slot.
    pub fn get(&self, at: usize) -> (slot: Option<&Question>)
        ensures
            match slot {
                Some(question) => at < self@.len() && question@ == self@[at as int],
                None => at >= self@.len(),
            },
    {
        if at < question_buffer_len(self) {
            Some(question_slot(self, at))
        } else {
            None
        }
    }

    /// Gives the buffer exactly `slots` slots: new slots are empty, slots past
    /// the end are dropped, the others keep what they hold.
    pub fn resize(&mut self, slots: usize)
        ensures
            final(self)@ == resized_questions(old(self)@, slots as nat),
    {
        resize_question_buffer(self, slots, Question::empty());
        assert(self@ =~= resized_questions(old(self)@, slots as nat));
    }

    /// Moves `items` into the first slots.
    fn fill(&mut self, items: Vec<Question>)
        requires
            items@.len() <= old(self)@.len(),
        ensures
            final(self)@ == filled(old(self)@, question_views(items@)),
    {
        let mut items = items;
        let ghost all: Seq<Question> = items@;
        let mut i: usize = items.len();
        while i > 0
            invariant
                i <= all.len() <= self@.len(),
                self@.len() == old(self)@.len(),
                items@ == all.take(i as int),
                forall|k: int| 0 <= k < i ==> self@[k] == old(self)@[k],
                forall|k: int| i <= k < all.len() ==> self@[k] == all[k]@,
                forall|k: int| all.len() <= k < self@.len() ==> self@[k] == old(self)@[k],
            decreases i,
        {
            i -= 1;
            let ghost before = question_slots(*self);
            match items.pop() {
                Some(item) => {
                    set_question_slot(self, i, item);
                    assert forall|k: int| 0 <= k < self@.len() implies self@[k] == (if k == i {
                        item@
                    } else {
                        question_views(before)[k]
                    }) by {}
                },
                None => {},
            }
        }
        assert(self@ =~= filled(old(self)@, question_views(all)));
    }
}

impl RecordBuffer {
    /// What the slots hold.
    pub open spec fn view(&self) -> Seq<RecordView> {
        record_views(record_slots(*self))
    }

    /// The number of slots.
    pub fn len(&self) -> (len: usize)
        ensures
            len == self@.len(),
    {
        record_buffer_len(self)
    }

    /// The record in the slot at `at`, if there is such a slot.
    pub fn get(&self, at: usize) -> (slot: Option<&ResourceRecord>)
        ensures
            match slot {
                Some(record) => at < self@.len() && record@ == self@[at as int],
                None => at >= self@.len(),
            },
    {
        if at < record_buffer_len(self) {
            Some(record_slot(self, at))
        } else {
            None
        }
    }

    /// Gives the buffer exactly `slots` slots: new slots are empty, slots past
    /// the end are dropped, the others keep what they hold.
    pub fn resize(&mut self, slots: usize)
        ensures
            final(self)@ == resized_records(old(self)@, slots as nat),
    {
        resize_record_buffer(self, slots, ResourceRecord::empty());
        assert(self@ =~= resized_records(old(self)@, slots as nat));
    }

    /// Moves `items` into the first slots.
    fn fill(&mut self, items: Vec<ResourceRecord>)
        requires
            items@.len() <= old(self)@.len(),
        ensures
            final(self)@ == filled(old(self)@, record_views(items@)),
    {
        let mut items = items;
        let ghost all: Seq<ResourceRecord> = items@;
        let mut i: usize = items.len();
        while i > 0
            invariant
                i <= all.len() <= self@.len(),
                self@.len() == old(self)@.len(),
                items@ == all.take(i as int),
                forall|k: int| 0 <= k < i ==> self@[k] == old(self)@[k],
                forall|k: int| i <= k < all.len() ==> self@[k] == all[k]@,
                forall|k: int| all.len() <= k < self@.len() ==> self@[k] == old(self)@[k],
            decreases i,
        {
            i -= 1;
            let ghost before = record_slots(*self);
            match items.pop() {
                Some(item) => {
                    set_record_slot(self, i, item);
                    assert forall|k: int| 0 <= k < self@.len() implies self@[k] == (if k == i {
                        item@
                    } else {
                        record_views(before)[k]
                    }) by {}
                },
                None => {},
            }
        }
        assert(self@ =~= filled(old(self)@, record_views(all)));
    }
}

/// The four parts of a message that hold records or questions.
#[derive(Debug, Clone, Copy, PartialEq, Eq, Structural)]
pub enum BufferType {
    Question,
    Answer,
    Authority,
    Additional,
}

/// Why a datagram was not read into the buffers.
#[derive(Debug, Clone, Copy, PartialEq, Eq, Structural)]
pub enum ReadError {
    /// The buffer of one part has fewer slots than the message has entries
    /// there: `tried_to_write` slots are needed.
    NotEnoughWriteSpace { tried_to_write: usize, buffer_type: BufferType },
    /// The bytes are no message.
    Malformed,
}

/// The slots that a message is read into, one buffer for each part. A reader
/// never changes how many slots a buffer has: the caller does.
pub struct MessageBuffers {
    /// The slots for the questions.
    pub questions: QuestionBuffer,
    /// The slots for the answers.
    pub answers: RecordBuffer,
    /// The slots for the authority records.
    pub authorities: RecordBuffer,
    /// The slots for the additional records.
    pub additionals: RecordBuffer,
}

/// What the buffers hold.
pub struct BuffersView {
    /// What the slots for the questions hold.
    pub questions: Seq<QuestionView>,
    /// What the slots for the answers hold.
    pub answers: Seq<RecordView>,
    /// What the slots for the authority records hold.
    pub authorities: Seq<RecordView>,
    /// What the slots for the additional records hold.
    pub additionals: Seq<RecordView>,
}

impl View for MessageBuffers {
    type V = BuffersView;

    open spec fn view(&self) -> BuffersView {
        BuffersView {
            questions: self.questions@,
            answers: self.answers@,
            authorities: self.authorities@,
            additionals: self.additionals@,
        }
    }
}

/// The first part, in the order of the message, for which the buffers have too
/// few slots, with the number of slots it needs.
pub open spec fn first_short(header: Header, buffers: BuffersView) -> Option<(BufferType, usize)> {
    if header.question_count > buffers.questions.len() {
        Some((BufferType::Question, header.question_count as usize))
    } else if header.answer_count > buffers.answers.len() {
        Some((BufferType::Answer, header.answer_count as usize))
    } else if header.authority_count > buffers.authorities.len() {
        Some((BufferType::Authority, header.authority_count as usize))
    } else if header.additional_count > buffers.additionals.len() {
        Some((BufferType::Additional, header.additional_count as usize))
    } else {
        None
    }
}

/// How many parts of the message the buffers have too few slots for.
pub open spec fn short_parts(header: Header, buffers: BuffersView) -> nat {
    let q: nat = if header.question_count > buffers.questions.len() {
        1
    } else {
        0
    };
    let a: nat = if header.answer_count > buffers.answers.len() {
        1
    } else {
        0
    };
    let n: nat = if header.authority_count > buffers.authorities.len() {
        1
    } else {
        0
    };
    let r: nat = if header.additional_count > buffers.additionals.len() {
        1
    } else {
        0
    };
    q + a + n + r
}

/// `slots` with its first entries replaced by `items`.
pub open spec fn filled<T>(slots: Seq<T>, items: Seq<T>) -> Seq<T> {
    items + slots.skip(items.len() as int)
}

/// The buffers with the parts of `message` written over their first slots.
pub open spec fn buffers_holding(buffers: BuffersView, message: MessageView) -> BuffersView {
    BuffersView {
        questions: filled(buffers.questions, message.questions),
        answers: filled(buffers.answers, message.answers),
        authorities: filled(buffers.authorities, message.authorities),
        additionals: filled(buffers.additionals, message.additionals),
    }
}

/// What one attempt to read `data` into `buffers` gives: the header and the
/// buffers filled, or the reason why not, with the buffers as they were.
pub open spec fn read_outcome(data: Seq<u8>, buffers: BuffersView) -> (Result<Header, ReadError>, BuffersView) {
    match decode_header(data) {
        None => (Err(ReadError::Malformed), buffers),
        Some(header) => match first_short(header, buffers) {
            Some((buffer_type, tried_to_write)) => (
                Err(ReadError::NotEnoughWriteSpace { tried_to_write, buffer_type }),
                buffers,
            ),
            None => match parse_message(data) {
                None => (Err(ReadError::Malformed), buffers),
                Some(message) => (Ok(header), buffers_holding(buffers, message)),
            },
        },
    }
}

impl MessageBuffers {
    /// Buffers with the slots a query usually needs: four questions and one
    /// answer, all of them empty.
    pub fn new() -> (buffers: Self)
        ensures
            buffers@ == (BuffersView {
                questions: resized_questions(Seq::empty(), 4),
                answers: resized_records(Seq::empty(), 1),
                authorities: Seq::empty(),
                additionals: Seq::empty(),
            }),
    {
        let mut buffers = MessageBuffers {
            questions: new_question_buffer(),
            answers: new_record_buffer(),
            authorities: new_record_buffer(),
            additionals: new_record_buffer(),
        };
        proof {
            assert(buffers.questions@ =~= Seq::<QuestionView>::empty());
            assert(buffers.answers@ =~= Seq::<RecordView>::empty());
            assert(buffers.authorities@ =~= Seq::<RecordView>::empty());
            assert(buffers.additionals@ =~= Seq::<RecordView>::empty());
        }
        buffers.resize(BufferType::Question, 4);
        buffers.resize(BufferType::Answer, 1);
        buffers
    }

    /// Reads `data` into the buffers, once. Where a buffer has too few slots
    /// nothing is read: the error names the first such buffer and the slots it
    /// needs.
    pub fn read(&mut self, data: &[u8]) -> (r: Result<Header, ReadError>)
        ensures
            (r, final(self)@) == read_outcome(data@, old(self)@),
    {
        let header: Header = match parse_header(data) {
            Ok(header) => header,
            Err(_) => {
                return Err(ReadError::Malformed);
            },
        };
        if header.question_count as usize > self.questions.len() {
            return Err(
                ReadError::NotEnoughWriteSpace {
                    tried_to_write: header.question_count as usize,
                    buffer_type: BufferType::Question,
                },
            );
        }
        if header.answer_count as usize > self.answers.len() {
            return Err(
                ReadError::NotEnoughWriteSpace {
                    tried_to_write: header.answer_count as usize,
                    buffer_type: BufferType::Answer,
                },
            );
        }
        if header.authority_count as usize > self.authorities.len() {
            return Err(
                ReadError::NotEnoughWriteSpace {
                    tried_to_write: header.authority_count as usize,
                    buffer_type: BufferType::Authority,
                },
            );
        }
        if header.additional_count as usize > self.additionals.len() {
            return Err(
                ReadError::NotEnoughWriteSpace {
                    tried_to_write: header.additional_count as usize,
                    buffer_type: BufferType::Additional,
                },
            );
        }
        let message: Message = match read_sections(data) {
            Some(message) => message,
            None => {
                return Err(ReadError::Malformed);
            },
        };
        proof {
            lemma_parse_message_counts(data@);
        }
        self.questions.fill(message.questions);
        self.answers.fill(message.answers);
        self.authorities.fill(message.authorities);
        self.additionals.fill(message.additionals);
        Ok(header)
    }

    /// Gives one buffer exactly `slots` slots: new slots are empty, slots past
    /// the end are dropped, the others keep what they hold.
    pub fn resize(&mut self, buffer_type: BufferType, slots: usize)
        ensures
            final(self)@ == resized(old(self)@, buffer_type, slots),
    {
        match buffer_type {
            BufferType::Question => self.questions.resize(slots),
            BufferType::Answer => self.answers.resize(slots),
            BufferType::Authority => self.authorities.resize(slots),
            BufferType::Additional => self.additionals.resize(slots),
        }
    }
}

/// A question that asks nothing.
pub open spec fn empty_question() -> QuestionView {
    QuestionView { labels: Seq::empty(), qtype: 0, qclass: 0, unicast_response: false }
}

/// A record that holds nothing.
pub open spec fn empty_record() -> RecordView {
    RecordView { name: Seq::empty(), rtype: 0, class: 0, ttl: 0, data: Seq::empty() }
}

/// `questions` cut or filled up with empty questions to `slots` entries.
pub open spec fn resized_questions(questions: Seq<QuestionView>, slots: nat) -> Seq<QuestionView> {
    Seq::new(
        slots,
        |i: int|
            if i < questions.len() {
                questions[i]
            } else {
                empty_question()
            },
    )
}

/// `records` cut or filled up with empty records to `slots` entries.
pub open spec fn resized_records(records: Seq<RecordView>, slots: nat) -> Seq<RecordView> {
    Seq::new(
        slots,
        |i: int|
            if i < records.len() {
                records[i]
            } else {
                empty_record()
            },
    )
}

/// The buffers after one of them was given `slots` slots.
pub open spec fn resized(buffers: BuffersView, buffer_type: BufferType, slots: usize) -> BuffersView {
    match buffer_type {
        BufferType::Question => BuffersView {
            questions: resized_questions(buffers.questions, slots as nat),
            ..buffers
        },
        BufferType::Answer => BuffersView {
            answers: resized_records(buffers.answers, slots as nat),
            ..buffers
        },
        BufferType::Authority => BuffersView {
            authorities: resized_records(buffers.authorities, slots as nat),
            ..buffers
        },
        BufferType::Additional => BuffersView {
            additionals: resized_records(buffers.additionals, slots as nat),
            ..buffers
        },
    }
}

/// The buffers after every part that was too small for `header` was given
/// exactly the slots that the header counts.
pub open spec fn grown(buffers: BuffersView, header: Header) -> BuffersView {
    BuffersView {
        questions: if header.question_count > buffers.questions.len() {
            resized_questions(buffers.questions, header.question_count as nat)
        } else {
            buffers.questions
        },
        answers: if header.answer_count > buffers.answers.len() {
            resized_records(buffers.answers, header.answer_count as nat)
        } else {
            buffers.answers
        },
        authorities: if header.authority_count > buffers.authorities.len() {
            resized_records(buffers.authorities, header.authority_count as nat)
        } else {
            buffers.authorities
        },
        additionals: if header.additional_count > buffers.additionals.len() {
            resized_records(buffers.additionals, header.additional_count as nat)
        } else {
            buffers.additionals
        },
    }
}

/// What reading with growth gives: the message's header and the buffers, grown
/// where they had to and filled; or, for bytes that are no message, the
/// buffers grown as far as a header could be read.
pub open spec fn growing_outcome(data: Seq<u8>, buffers: BuffersView) -> (Option<Header>, BuffersView) {
    match decode_header(data) {
        None => (None, buffers),
        Some(header) => match parse_message(data) {
            None => (None, grown(buffers, header)),
            Some(message) => (Some(header), buffers_holding(grown(buffers, header), message)),
        },
    }
}

/// How often reading with growth has to give a buffer more slots.
pub open spec fn growths_needed(data: Seq<u8>, buffers: BuffersView) -> nat {
    match decode_header(data) {
        None => 0,
        Some(header) => short_parts(header, buffers),
    }
}

/// Each part of `now` is the part of `before` as it was, or, where that was too
/// small for `header`, grown to what the header counts.
spec fn grown_in_part(before: BuffersView, now: BuffersView, header: Header) -> bool {
    &&& (now.questions == before.questions || (header.question_count > before.questions.len()
        && now.questions == resized_questions(before.questions, header.question_count as nat)))
    &&& (now.answers == before.answers || (header.answer_count > before.answers.len()
        && now.answers == resized_records(before.answers, header.answer_count as nat)))
    &&& (now.authorities == before.authorities || (header.authority_count
        > before.authorities.len() && now.authorities == resized_records(
        before.authorities,
        header.authority_count as nat,
    )))
    &&& (now.additionals == before.additionals || (header.additional_count
        > before.additionals.len() && now.additionals == resized_records(
        before.additionals,
        header.additional_count as nat,
    )))
}

impl MessageBuffers {
    /// Reads `data` into the buffers. Whenever a read reports a buffer as too
    /// small, that buffer is given the slots asked for and the same bytes are
    /// read again from the start. Also says how often a buffer had to grow:
    /// once for each part that was too small, never more.
    pub fn read_growing(&mut self, data: &[u8]) -> (r: (Option<Header>, usize))
        ensures
            (r.0, final(self)@) == growing_outcome(data@, old(self)@),
            r.1 == growths_needed(data@, old(self)@),
    {
        let mut growths: usize = 0;
        loop
            invariant
                growths <= 4,
                decode_header(data@) is None ==> self@ == old(self)@ && growths == 0,
                decode_header(data@) matches Some(header) ==> grown_in_part(
                    old(self)@,
                    self@,
                    header,
                ) && growths + short_parts(header, self@) == short_parts(header, old(self)@),
            decreases growths_needed(data@, self@),
        {
            let ghost before = self@;
            match self.read(data) {
                Ok(header) => {
                    proof {
                        assert(grown(old(self)@, header) == before);
                    }
                    return (Some(header), growths);
                },
                Err(ReadError::NotEnoughWriteSpace { tried_to_write, buffer_type }) => {
                    self.resize(buffer_type, tried_to_write);
                    growths += 1;
                },
                Err(ReadError::Malformed) => {
                    proof {
                        if let Some(header) = decode_header(data@) {
                            assert(grown(old(self)@, header) == before);
                        }
                    }
                    return (None, growths);
                },
            }
        }
    }
}

/// A message with more answers than the buffers have slots, and with room for
/// everything else, is read after exactly one growth: the first attempt asks
/// for as many answer slots as the message has answers, and the attempt after
/// that growth fills the answer buffer with exactly the answers of the
/// message, none lost and none twice.
pub proof fn lemma_short_answers_grow_once(data: Seq<u8>, buffers: BuffersView)
    requires
        parse_message(data) matches Some(message) && message.questions.len()
            <= buffers.questions.len() && message.answers.len() > buffers.answers.len()
            && message.authorities.len() <= buffers.authorities.len()
            && message.additionals.len() <= buffers.additionals.len(),
    ensures
        ({
            let message = parse_message(data).unwrap();
            let slots = message.header.answer_count as usize;
            let larger = resized(buffers, BufferType::Answer, slots);
            &&& read_outcome(data, buffers) == (
                Err::<Header, ReadError>(
                    ReadError::NotEnoughWriteSpace {
                        tried_to_write: slots,
                        buffer_type: BufferType::Answer,
                    },
                ),
                buffers,
            )
            &&& read_outcome(data, larger).0 == Ok::<Header, ReadError>(message.header)
            &&& read_outcome(data, larger).1.answers == message.answers
            &&& growths_needed(data, buffers) == 1
            &&& growing_outcome(data, buffers) == (
                Some(message.header),
                read_outcome(data, larger).1,
            )
        }),
{
    lemma_parse_message_counts(data);
    let message = parse_message(data).unwrap();
    let slots = message.header.answer_count as usize;
    let larger = resized(buffers, BufferType::Answer, slots);
    assert(larger.answers.len() == message.answers.len());
    assert(filled(larger.answers, message.answers) =~= message.answers);
    assert(grown(buffers, message.header) == larger);
}

} // verus!

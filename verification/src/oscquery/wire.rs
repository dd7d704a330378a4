//! The DNS wire format, as far as a discovery responder writes it.
//!
//! Names are kept in presentation form, as bytes: labels separated by dots,
//! with or without a closing dot. On the wire every label is preceded by its
//! length and the name ends in a zero byte.

use vstd::prelude::*;
use vstd::string::StringSliceAdditionalSpecFns;

verus! {

/// The byte that separates labels in a written name.
pub const DOT: u8 = 46;

/// Longest label a name may hold.
pub const MAX_LABEL_BYTES: usize = 63;

/// Longest name, counted in wire form.
pub const MAX_NAME_BYTES: usize = 255;

/// Why a written name has no wire form.
#[derive(Debug, Clone, Copy, PartialEq, Eq, Structural)]
pub enum NameError {
    /// Two dots follow each other, or the name starts with one.
    EmptyLabel,
    /// A label is longer than 63 bytes.
    LabelTooLong,
    /// The wire form would be longer than 255 bytes.
    NameTooLong,
}

/// Position of the first dot at or after `from`, or the length of `s`.
pub open spec fn next_dot(s: Seq<u8>, from: int) -> int
    decreases s.len() - from,
{
    if from >= s.len() {
        s.len() as int
    } else if from < 0 || s[from] == DOT {
        from
    } else {
        next_dot(s, from + 1)
    }
}

/// The pieces of `s` between dots, starting at `from`.
pub open spec fn labels_from(s: Seq<u8>, from: int) -> Seq<Seq<u8>>
    decreases s.len() - from,
{
    let end = next_dot(s, from);
    if from < 0 || from > s.len() {
        Seq::empty()
    } else if end >= s.len() {
        seq![s.subrange(from, s.len() as int)]
    } else if end < from {
        Seq::empty()
    } else {
        seq![s.subrange(from, end)] + labels_from(s, end + 1)
    }
}

/// The labels of a written name. The empty name is the root and has none; one
/// closing dot is not a label.
pub open spec fn split_labels(name: Seq<u8>) -> Seq<Seq<u8>> {
    if name.len() == 0 {
        Seq::empty()
    } else if name.last() == DOT {
        labels_from(name.drop_last(), 0)
    } else {
        labels_from(name, 0)
    }
}

/// Labels in wire form: each behind its length, then the closing zero.
pub open spec fn encode_labels(labels: Seq<Seq<u8>>) -> Seq<u8>
    decreases labels.len(),
{
    if labels.len() == 0 {
        seq![0u8]
    } else {
        seq![labels[0].len() as u8] + labels[0] + encode_labels(labels.drop_first())
    }
}

/// Length of the wire form of `labels`.
pub open spec fn wire_len(labels: Seq<Seq<u8>>) -> nat
    decreases labels.len(),
{
    if labels.len() == 0 {
        1
    } else {
        1 + labels[0].len() + wire_len(labels.drop_first())
    }
}

/// The fault of the first label that has one.
pub open spec fn labels_fault(labels: Seq<Seq<u8>>) -> Option<NameError>
    decreases labels.len(),
{
    if labels.len() == 0 {
        None
    } else if labels[0].len() == 0 {
        Some(NameError::EmptyLabel)
    } else if labels[0].len() > MAX_LABEL_BYTES {
        Some(NameError::LabelTooLong)
    } else {
        labels_fault(labels.drop_first())
    }
}

/// Why `name` cannot be written on the wire, if it cannot.
pub open spec fn name_fault(name: Seq<u8>) -> Option<NameError> {
    let labels = split_labels(name);
    match labels_fault(labels) {
        Some(e) => Some(e),
        None => if wire_len(labels) > MAX_NAME_BYTES {
            Some(NameError::NameTooLong)
        } else {
            None
        },
    }
}

/// The wire form of a written name.
pub open spec fn encode_name(name: Seq<u8>) -> Seq<u8> {
    encode_labels(split_labels(name))
}

/// A 16-bit number in network byte order.
pub open spec fn be16(v: u16) -> Seq<u8> {
    seq![(v / 256) as u8, (v % 256) as u8]
}

/// A 32-bit number in network byte order.
pub open spec fn be32(v: u32) -> Seq<u8> {
    seq![
        (v / 0x100_0000) as u8,
        ((v / 0x1_0000) % 256) as u8,
        ((v / 0x100) % 256) as u8,
        (v % 256) as u8,
    ]
}

/// The 16-bit number that two bytes in network order spell.
pub open spec fn from_be16(hi: u8, lo: u8) -> u16 {
    (hi as int * 256 + lo as int) as u16
}

/// A stretch without dots does not move the next dot.
pub proof fn lemma_next_dot_skips(s: Seq<u8>, from: int, to: int)
    requires
        0 <= from <= to <= s.len(),
        forall|k: int| from <= k < to ==> s[k] != DOT,
    ensures
        next_dot(s, from) == next_dot(s, to),
    decreases to - from,
{
    if from < to {
        lemma_next_dot_skips(s, from + 1, to);
    }
}

/// The wire form is as long as `wire_len` says.
pub proof fn lemma_encode_labels_len(labels: Seq<Seq<u8>>)
    ensures
        encode_labels(labels).len() == wire_len(labels),
    decreases labels.len(),
{
    if labels.len() > 0 {
        lemma_encode_labels_len(labels.drop_first());
    }
}

/// Appends `v` in network byte order.
pub fn push_be16(out: &mut Vec<u8>, v: u16)
    ensures
        final(out)@ == old(out)@ + be16(v),
{
    out.push((v / 256) as u8);
    out.push((v % 256) as u8);
    assert(out@ =~= old(out)@ + be16(v));
}

/// Appends `v` in network byte order.
pub fn push_be32(out: &mut Vec<u8>, v: u32)
    ensures
        final(out)@ == old(out)@ + be32(v),
{
    out.push((v / 0x100_0000) as u8);
    out.push(((v / 0x1_0000) % 256) as u8);
    out.push(((v / 0x100) % 256) as u8);
    out.push((v % 256) as u8);
    assert(out@ =~= old(out)@ + be32(v));
}

/// Appends a copy of `bytes`.
pub fn push_bytes(out: &mut Vec<u8>, bytes: &[u8])
    ensures
        final(out)@ == old(out)@ + bytes@,
{
    let mut i: usize = 0;
    while i < bytes.len()
        invariant
            i <= bytes@.len(),
            out@ == old(out)@ + bytes@.take(i as int),
        decreases bytes@.len() - i,
    {
        out.push(bytes[i]);
        i += 1;
        assert(out@ =~= old(out)@ + bytes@.take(i as int));
    }
    assert(bytes@.take(i as int) =~= bytes@);
}

/// A copy of `bytes`.
pub fn copy_bytes(bytes: &[u8]) -> (out: Vec<u8>)
    ensures
        out@ == bytes@,
{
    let mut out: Vec<u8> = Vec::new();
    push_bytes(&mut out, bytes);
    assert(out@ =~= bytes@);
    out
}

/// Whether two byte strings are the same.
pub fn same_bytes(a: &[u8], b: &[u8]) -> (same: bool)
    ensures
        same == (a@ == b@),
{
    if a.len() != b.len() {
        return false;
    }
    let mut i: usize = 0;
    while i < a.len()
        invariant
            i <= a@.len(),
            a@.len() == b@.len(),
            a@.take(i as int) == b@.take(i as int),
        decreases a@.len() - i,
    {
        if a[i] != b[i] {
            return false;
        }
        i += 1;
        assert(a@.take(i as int) =~= a@.take(i - 1).push(a@[i - 1]));
        assert(b@.take(i as int) =~= b@.take(i - 1).push(b@[i - 1]));
    }
    assert(a@.take(i as int) =~= a@);
    assert(b@.take(i as int) =~= b@);
    true
}

/// The views of the byte strings in `labels`.
pub open spec fn label_views(labels: Seq<Vec<u8>>) -> Seq<Seq<u8>> {
    labels.map_values(|l: Vec<u8>| l@)
}

/// Cuts a written name into its labels.
pub fn split_name(name: &[u8]) -> (labels: Vec<Vec<u8>>)
    ensures
        label_views(labels@) == split_labels(name@),
{
    let n: usize = name.len();
    let mut labels: Vec<Vec<u8>> = Vec::new();
    if n == 0 {
        assert(label_views(labels@) =~= split_labels(name@));
        return labels;
    }
    let end: usize = if name[n - 1] == DOT {
        n - 1
    } else {
        n
    };
    let ghost s: Seq<u8> = name@.take(end as int);
    proof {
        assert(name@.drop_last() =~= name@.take(n - 1));
        assert(name@.take(n as int) =~= name@);
        assert(split_labels(name@) == labels_from(s, 0));
        assert(label_views(labels@) =~= Seq::<Seq<u8>>::empty());
    }
    let mut current: Vec<u8> = Vec::new();
    let mut i: usize = 0;
    let ghost mut start: int = 0;
    while i < end
        invariant
            end <= name@.len(),
            s == name@.take(end as int),
            0 <= start <= i <= end,
            current@ == s.subrange(start, i as int),
            forall|k: int| start <= k < i ==> s[k] != DOT,
            labels_from(s, 0) == label_views(labels@) + labels_from(s, start),
        decreases end - i,
    {
        if name[i] == DOT {
            proof {
                lemma_next_dot_skips(s, start, i as int);
                assert(next_dot(s, i as int) == i);
                assert(labels_from(s, start) == seq![s.subrange(start, i as int)] + labels_from(
                    s,
                    i + 1,
                ));
            }
            let ghost before = labels@;
            labels.push(current);
            current = Vec::new();
            proof {
                assert(label_views(labels@) =~= label_views(before).push(
                    s.subrange(start, i as int),
                ));
                assert(label_views(labels@) + labels_from(s, i + 1) =~= label_views(before) + (
                seq![s.subrange(start, i as int)] + labels_from(s, i + 1)));
                start = i + 1;
                assert(current@ =~= s.subrange(start, i + 1));
            }
        } else {
            current.push(name[i]);
            assert(current@ =~= s.subrange(start, i + 1));
        }
        i += 1;
    }
    proof {
        lemma_next_dot_skips(s, start, end as int);
        assert(labels_from(s, start) == seq![s.subrange(start, s.len() as int)]);
    }
    let ghost before = labels@;
    labels.push(current);
    proof {
        assert(label_views(labels@) =~= label_views(before).push(s.subrange(start, end as int)));
        assert(label_views(labels@) =~= label_views(before) + labels_from(s, start));
    }
    labels
}

/// Writes labels in wire form, or says which rule the name breaks.
pub fn encode_label_list(labels: &Vec<Vec<u8>>) -> (r: Result<Vec<u8>, NameError>)
    ensures
        match r {
            Ok(bytes) => labels_fault(label_views(labels@)).is_none() && wire_len(
                label_views(labels@),
            ) <= MAX_NAME_BYTES && bytes@ == encode_labels(label_views(labels@)),
            Err(e) => match labels_fault(label_views(labels@)) {
                Some(fault) => e == fault,
                None => e == NameError::NameTooLong && wire_len(label_views(labels@))
                    > MAX_NAME_BYTES,
            },
        },
{
    let ghost all: Seq<Seq<u8>> = label_views(labels@);
    let mut out: Vec<u8> = Vec::new();
    let mut i: usize = 0;
    proof {
        assert(all.skip(0) =~= all);
    }
    while i < labels.len()
        invariant
            i <= labels@.len(),
            all == label_views(labels@),
            labels_fault(all) == labels_fault(all.skip(i as int)),
            encode_labels(all) == out@ + encode_labels(all.skip(i as int)),
            wire_len(all) == out@.len() + wire_len(all.skip(i as int)),
            out@.len() <= MAX_NAME_BYTES,
        decreases labels@.len() - i,
    {
        let label: &Vec<u8> = &labels[i];
        let ghost rest: Seq<Seq<u8>> = all.skip(i as int);
        proof {
            assert(rest[0] == label@);
            assert(rest.drop_first() =~= all.skip(i + 1));
        }
        if label.len() == 0 {
            return Err(NameError::EmptyLabel);
        }
        if label.len() > MAX_LABEL_BYTES {
            return Err(NameError::LabelTooLong);
        }
        if out.len() + 1 + label.len() > MAX_NAME_BYTES {
            proof {
                lemma_wire_len_positive(all, i as int);
            }
            if tail_is_sound(labels, i + 1) {
                return Err(NameError::NameTooLong);
            } else {
                let fault: NameError = tail_fault(labels, i + 1);
                return Err(fault);
            }
        }
        let ghost before = out@;
        out.push(label.len() as u8);
        push_bytes(&mut out, label.as_slice());
        proof {
            assert(out@ =~= before + (seq![label@.len() as u8] + label@));
            assert(out@ + encode_labels(all.skip(i + 1)) =~= before + encode_labels(rest));
        }
        i += 1;
    }
    proof {
        assert(all.skip(i as int) =~= Seq::<Seq<u8>>::empty());
    }
    if out.len() + 1 > MAX_NAME_BYTES {
        return Err(NameError::NameTooLong);
    }
    out.push(0);
    proof {
        assert(out@ =~= encode_labels(all));
    }
    Ok(out)
}

/// Every wire form holds at least the closing zero.
proof fn lemma_wire_len_positive(all: Seq<Seq<u8>>, i: int)
    requires
        0 <= i <= all.len(),
    ensures
        wire_len(all.skip(i)) >= 1,
    decreases all.len() - i,
{
    if i < all.len() {
        assert(all.skip(i).drop_first() =~= all.skip(i + 1));
        lemma_wire_len_positive(all, i + 1);
    }
}

/// Whether no label from `from` on has a fault.
fn tail_is_sound(labels: &Vec<Vec<u8>>, from: usize) -> (sound: bool)
    requires
        from <= labels@.len(),
    ensures
        sound == labels_fault(label_views(labels@).skip(from as int)).is_none(),
{
    let ghost all: Seq<Seq<u8>> = label_views(labels@);
    let mut i: usize = from;
    while i < labels.len()
        invariant
            from <= i <= labels@.len(),
            all == label_views(labels@),
            labels_fault(all.skip(from as int)) == labels_fault(all.skip(i as int)),
        decreases labels@.len() - i,
    {
        proof {
            assert(all.skip(i as int)[0] == labels@[i as int]@);
            assert(all.skip(i as int).drop_first() =~= all.skip(i + 1));
        }
        if labels[i].len() == 0 || labels[i].len() > MAX_LABEL_BYTES {
            return false;
        }
        i += 1;
    }
    proof {
        assert(all.skip(i as int) =~= Seq::<Seq<u8>>::empty());
    }
    true
}

/// The fault of the first faulty label from `from` on.
fn tail_fault(labels: &Vec<Vec<u8>>, from: usize) -> (fault: NameError)
    requires
        from <= labels@.len(),
        labels_fault(label_views(labels@).skip(from as int)).is_some(),
    ensures
        labels_fault(label_views(labels@).skip(from as int)) == Some(fault),
{
    let ghost all: Seq<Seq<u8>> = label_views(labels@);
    let mut i: usize = from;
    while i < labels.len()
        invariant
            from <= i <= labels@.len(),
            all == label_views(labels@),
            labels_fault(all.skip(from as int)) == labels_fault(all.skip(i as int)),
            labels_fault(all.skip(from as int)).is_some(),
        decreases labels@.len() - i,
    {
        proof {
            assert(all.skip(i as int)[0] == labels@[i as int]@);
            assert(all.skip(i as int).drop_first() =~= all.skip(i + 1));
        }
        if labels[i].len() == 0 {
            return NameError::EmptyLabel;
        }
        if labels[i].len() > MAX_LABEL_BYTES {
            return NameError::LabelTooLong;
        }
        i += 1;
    }
    proof {
        assert(all.skip(i as int) =~= Seq::<Seq<u8>>::empty());
    }
    NameError::EmptyLabel
}

/// Writes a name in wire form, or says which rule it breaks.
pub fn encode_name_bytes(name: &[u8]) -> (r: Result<Vec<u8>, NameError>)
    ensures
        match r {
            Ok(bytes) => name_fault(name@).is_none() && bytes@ == encode_name(name@),
            Err(e) => name_fault(name@) == Some(e),
        },
{
    let labels: Vec<Vec<u8>> = split_name(name);
    encode_label_list(&labels)
}

/// The kinds of record that the responder publishes.
#[derive(Debug, Clone, Copy, PartialEq, Eq, Structural)]
pub enum ResourceType {
    /// A pointer from a service type to an instance of it.
    Ptr,
    /// Host and port of a service instance.
    Srv,
    /// Further properties of a service instance.
    Txt,
    /// An IPv4 address.
    A,
}

impl ResourceType {
    /// The number that stands for the kind on the wire.
    pub open spec fn spec_code(self) -> u16 {
        match self {
            ResourceType::Ptr => 12,
            ResourceType::Srv => 33,
            ResourceType::Txt => 16,
            ResourceType::A => 1,
        }
    }

    /// The number that stands for the kind on the wire.
    #[verifier::when_used_as_spec(spec_code)]
    pub fn code(self) -> (code: u16)
        ensures
            code == self.spec_code(),
    {
        match self {
            ResourceType::Ptr => 12,
            ResourceType::Srv => 33,
            ResourceType::Txt => 16,
            ResourceType::A => 1,
        }
    }
}

/// The class of every record of the internet.
pub const CLASS_IN: u16 = 1;

/// Longest payload whose length fits the record's length field.
pub const MAX_RDATA_BYTES: usize = 65535;

/// A record: who owns it, what kind it is, and a payload already in wire form.
#[derive(Debug, Clone, PartialEq, Eq)]
pub struct ResourceRecord {
    /// The name that owns the record, written with dots.
    pub name: Vec<u8>,
    /// The kind of record, as its number.
    pub rtype: u16,
    /// The class field as it goes on the wire.
    pub class: u16,
    /// Seconds that a peer may keep the record.
    pub ttl: u32,
    /// The payload, in wire form.
    pub data: Vec<u8>,
}

/// What a record holds.
pub struct RecordView {
    /// The name that owns the record, written with dots.
    pub name: Seq<u8>,
    /// The kind of record, as its number.
    pub rtype: u16,
    /// The class field as it goes on the wire.
    pub class: u16,
    /// Seconds that a peer may keep the record.
    pub ttl: u32,
    /// The payload, in wire form.
    pub data: Seq<u8>,
}

impl View for ResourceRecord {
    type V = RecordView;

    open spec fn view(&self) -> RecordView {
        RecordView {
            name: self.name@,
            rtype: self.rtype,
            class: self.class,
            ttl: self.ttl,
            data: self.data@,
        }
    }
}

/// Whether a record can be written: its name has a wire form and its payload
/// fits the length field.
pub open spec fn record_fits(record: RecordView) -> bool {
    name_fault(record.name).is_none() && record.data.len() <= MAX_RDATA_BYTES
}

/// A record in wire form.
pub open spec fn encode_record(record: RecordView) -> Seq<u8> {
    encode_name(record.name) + be16(record.rtype) + be16(record.class) + be32(record.ttl) + be16(
        record.data.len() as u16,
    ) + record.data
}

/// Records in wire form, one after the other.
pub open spec fn encode_records(records: Seq<RecordView>) -> Seq<u8>
    decreases records.len(),
{
    if records.len() == 0 {
        Seq::empty()
    } else {
        encode_records(records.drop_last()) + encode_record(records.last())
    }
}

/// Whether every record of the list can be written.
pub open spec fn records_fit(records: Seq<RecordView>) -> bool {
    forall|i: int| 0 <= i < records.len() ==> record_fits(#[trigger] records[i])
}

/// The views of the records in `records`.
pub open spec fn record_views(records: Seq<ResourceRecord>) -> Seq<RecordView> {
    records.map_values(|r: ResourceRecord| r@)
}

impl ResourceRecord {
    /// A record owned by `name`.
    pub fn new(name: &str, rtype: ResourceType, class: u16, ttl: u32, data: Vec<u8>) -> (record:
        Self)
        ensures
            record@ == (RecordView {
                name: name.spec_bytes(),
                rtype: rtype.spec_code(),
                class,
                ttl,
                data: data@,
            }),
    {
        ResourceRecord { name: copy_bytes(name.as_bytes()), rtype: rtype.code(), class, ttl, data }
    }

    /// A record that holds nothing; it fills the unused slots of a buffer.
    pub fn empty() -> (record: Self)
        ensures
            record@ == (RecordView {
                name: Seq::empty(),
                rtype: 0,
                class: 0,
                ttl: 0,
                data: Seq::empty(),
            }),
    {
        ResourceRecord { name: Vec::new(), rtype: 0, class: 0, ttl: 0, data: Vec::new() }
    }

    /// A copy of the record.
    pub fn duplicate(&self) -> (copy: Self)
        ensures
            copy@ == self@,
    {
        ResourceRecord {
            name: copy_bytes(self.name.as_slice()),
            rtype: self.rtype,
            class: self.class,
            ttl: self.ttl,
            data: copy_bytes(self.data.as_slice()),
        }
    }

    /// Whether the record can be written on the wire.
    pub fn fits(&self) -> (fits: bool)
        ensures
            fits == record_fits(self@),
    {
        if self.data.len() > MAX_RDATA_BYTES {
            return false;
        }
        match encode_name_bytes(self.name.as_slice()) {
            Ok(_) => true,
            Err(_) => false,
        }
    }

    /// Appends the record in wire form. A record that does not fit leaves the
    /// output as it was.
    pub fn write(&self, out: &mut Vec<u8>) -> (written: bool)
        ensures
            written == record_fits(self@),
            written ==> final(out)@ == old(out)@ + encode_record(self@),
            !written ==> final(out)@ == old(out)@,
    {
        if self.data.len() > MAX_RDATA_BYTES {
            return false;
        }
        match encode_name_bytes(self.name.as_slice()) {
            Ok(name) => {
                push_bytes(out, name.as_slice());
                push_be16(out, self.rtype);
                push_be16(out, self.class);
                push_be32(out, self.ttl);
                push_be16(out, self.data.len() as u16);
                push_bytes(out, self.data.as_slice());
                assert(out@ =~= old(out)@ + encode_record(self@));
                true
            },
            Err(_) => false,
        }
    }
}

/// The first twelve bytes of a message.
#[derive(Debug, Clone, Copy, PartialEq, Eq, Structural)]
pub struct Header {
    /// The number by which a reply is matched to its query.
    pub id: u16,
    /// The flags, as they stand on the wire.
    pub flags: u16,
    /// How many questions follow the header.
    pub question_count: u16,
    /// How many answers follow the questions.
    pub answer_count: u16,
    /// How many authority records follow the answers.
    pub authority_count: u16,
    /// How many additional records follow the authority records.
    pub additional_count: u16,
}

/// Length of a header on the wire.
pub const HEADER_BYTES: usize = 12;

/// The flag that tells a reply from a query.
pub const FLAG_RESPONSE: u16 = 0x8000;

/// A header in wire form.
pub open spec fn encode_header(header: Header) -> Seq<u8> {
    be16(header.id) + be16(header.flags) + be16(header.question_count) + be16(header.answer_count)
        + be16(header.authority_count) + be16(header.additional_count)
}

/// The header that the first twelve bytes of `data` spell, if there are twelve.
pub open spec fn decode_header(data: Seq<u8>) -> Option<Header> {
    if data.len() < HEADER_BYTES {
        None
    } else {
        Some(
            Header {
                id: from_be16(data[0], data[1]),
                flags: from_be16(data[2], data[3]),
                question_count: from_be16(data[4], data[5]),
                answer_count: from_be16(data[6], data[7]),
                authority_count: from_be16(data[8], data[9]),
                additional_count: from_be16(data[10], data[11]),
            },
        )
    }
}

/// A message without questions: a header, then answers, then additional
/// records.
pub open spec fn encode_message(
    id: u16,
    flags: u16,
    answers: Seq<RecordView>,
    additionals: Seq<RecordView>,
) -> Seq<u8> {
    encode_header(
        Header {
            id,
            flags,
            question_count: 0,
            answer_count: answers.len() as u16,
            authority_count: 0,
            additional_count: additionals.len() as u16,
        },
    ) + encode_records(answers) + encode_records(additionals)
}

impl Header {
    /// Appends the header in wire form.
    pub fn write(&self, out: &mut Vec<u8>)
        ensures
            final(out)@ == old(out)@ + encode_header(*self),
    {
        push_be16(out, self.id);
        push_be16(out, self.flags);
        push_be16(out, self.question_count);
        push_be16(out, self.answer_count);
        push_be16(out, self.authority_count);
        push_be16(out, self.additional_count);
        assert(out@ =~= old(out)@ + encode_header(*self));
    }
}

/// Two bytes in network order spell the number they were cut from.
pub proof fn lemma_be16_round_trip(v: u16)
    ensures
        from_be16(be16(v)[0], be16(v)[1]) == v,
{
}

/// Reading a header back gives what was written.
pub proof fn lemma_header_round_trip(header: Header, rest: Seq<u8>)
    ensures
        decode_header(encode_header(header) + rest) == Some(header),
{
    let bytes = encode_header(header) + rest;
    assert(bytes.len() >= 12);
    lemma_be16_round_trip(header.id);
    lemma_be16_round_trip(header.flags);
    lemma_be16_round_trip(header.question_count);
    lemma_be16_round_trip(header.answer_count);
    lemma_be16_round_trip(header.authority_count);
    lemma_be16_round_trip(header.additional_count);
    assert(bytes[0] == (header.id / 256) as u8);
    assert(bytes[1] == (header.id % 256) as u8);
    assert(bytes[2] == (header.flags / 256) as u8);
    assert(bytes[3] == (header.flags % 256) as u8);
    assert(bytes[4] == (header.question_count / 256) as u8);
    assert(bytes[5] == (header.question_count % 256) as u8);
    assert(bytes[6] == (header.answer_count / 256) as u8);
    assert(bytes[7] == (header.answer_count % 256) as u8);
    assert(bytes[8] == (header.authority_count / 256) as u8);
    assert(bytes[9] == (header.authority_count % 256) as u8);
    assert(bytes[10] == (header.additional_count / 256) as u8);
    assert(bytes[11] == (header.additional_count % 256) as u8);
}

/// Appends `records[from..to]` in wire form.
pub fn write_records(records: &Vec<ResourceRecord>, from: usize, to: usize, out: &mut Vec<u8>)
    requires
        from <= to <= records@.len(),
        records_fit(record_views(records@)),
    ensures
        final(out)@ == old(out)@ + encode_records(
            record_views(records@).subrange(from as int, to as int),
        ),
{
    let ghost all: Seq<RecordView> = record_views(records@);
    let mut i: usize = from;
    proof {
        assert(all.subrange(from as int, from as int) =~= Seq::<RecordView>::empty());
        assert(out@ =~= old(out)@ + encode_records(all.subrange(from as int, from as int)));
    }
    while i < to
        invariant
            from <= i <= to <= records@.len(),
            all == record_views(records@),
            records_fit(all),
            out@ == old(out)@ + encode_records(all.subrange(from as int, i as int)),
        decreases to - i,
    {
        let ghost before = out@;
        proof {
            assert(all[i as int] == records@[i as int]@);
            assert(record_fits(all[i as int]));
        }
        records[i].write(out);
        proof {
            let next = all.subrange(from as int, i + 1);
            assert(next.drop_last() =~= all.subrange(from as int, i as int));
            assert(next.last() == all[i as int]);
            assert(out@ =~= old(out)@ + encode_records(next));
        }
        i += 1;
    }
}

} // verus!

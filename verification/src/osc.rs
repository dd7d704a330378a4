//! The event loop: what a received packet means and what is sent in return.
//!
//! The loop itself, with its socket and its clock, runs outside this crate. It
//! hands every datagram to [`OscBooper::handle_datagram`], sends what the
//! returned [`Reaction`] asks for, and reports back what it did.

use vstd::prelude::*;
use vstd::string::StringExecFns;
use vstd::utf8::encode_utf8;
use rosc::{OscError, OscType};
use crate::config::{
    ascending, ends_in, rule_views, Options, RuleView, TextSuffix, TextSuffixResult,
};
use crate::digits::{append_decimal, decimal_text};
use crate::oscquery::wire::same_bytes;
use crate::storage::{system_clock, BoopStorage, CivilDate, Timestamp};

verus! {

/// The reason that `rosc` gives for bytes it cannot decode. It is passed on
/// unopened: nothing here depends on what it says.
#[verifier::external_type_specification]
#[verifier::external_body]
pub struct ExOscError(OscError);

/// One argument of a message. Kinds that the service never looks into are not
/// told apart.
#[derive(Debug, Clone, PartialEq, Eq)]
pub enum Argument {
    Boolean(bool),
    Integer(i32),
    Long(i64),
    Text(String),
    Other,
}

/// What an argument holds.
pub enum ArgumentView {
    Boolean(bool),
    Integer(i32),
    Long(i64),
    Text(Seq<char>),
    Other,
}

impl View for Argument {
    type V = ArgumentView;

    open spec fn view(&self) -> ArgumentView {
        match self {
            Argument::Boolean(b) => ArgumentView::Boolean(*b),
            Argument::Integer(i) => ArgumentView::Integer(*i),
            Argument::Long(l) => ArgumentView::Long(*l),
            Argument::Text(s) => ArgumentView::Text(s@),
            Argument::Other => ArgumentView::Other,
        }
    }
}

/// A message: an address and its arguments.
#[derive(Debug, Clone, PartialEq, Eq)]
pub struct Message {
    pub addr: String,
    pub args: Vec<Argument>,
}

/// What a message holds.
pub struct MessageView {
    pub addr: Seq<char>,
    pub args: Seq<ArgumentView>,
}

/// The views of the arguments in `args`.
pub open spec fn argument_views(args: Seq<Argument>) -> Seq<ArgumentView> {
    args.map_values(|a: Argument| a@)
}

impl View for Message {
    type V = MessageView;

    open spec fn view(&self) -> MessageView {
        MessageView { addr: self.addr@, args: argument_views(self.args@) }
    }
}

/// What a datagram holds: one message, or a bundle, which the service passes
/// over.
#[derive(Debug, Clone, PartialEq, Eq)]
pub enum Packet {
    Message(Message),
    Bundle,
}

/// What a packet holds.
pub enum PacketView {
    Message(MessageView),
    Bundle,
}

impl View for Packet {
    type V = PacketView;

    open spec fn view(&self) -> PacketView {
        match self {
            Packet::Message(m) => PacketView::Message(m@),
            Packet::Bundle => PacketView::Bundle,
        }
    }
}

/// The packet that a datagram holds, or nothing where the bytes are no
/// packet.
pub uninterp spec fn decoded_packet(data: Seq<u8>) -> Option<PacketView>;

/// The bytes that stand for a message on the wire.
pub uninterp spec fn encoded_message(message: MessageView) -> Seq<u8>;

/// Whether every argument of the message is of a kind that can be sent.
pub open spec fn can_be_sent(message: MessageView) -> bool {
    forall|i: int| 0 <= i < message.args.len() ==> !(#[trigger] message.args[i] is Other)
}

/// Decodes a datagram with `rosc::decoder::decode_udp`. The result depends on
/// the bytes alone; `decoded_packet` names it. Of a bundle nothing is kept.
/// Of the arguments of a message the truth values, the texts and the whole
/// numbers are kept; the others only leave their place.
#[verifier::external_body]
fn decode_udp(data: &[u8]) -> (r: Result<Packet, OscError>)
    ensures
        match r {
            Ok(packet) => decoded_packet(data@) == Some(packet@),
            Err(_) => decoded_packet(data@).is_none(),
        },
{
    let (_, packet) = rosc::decoder::decode_udp(data)?;
    let rosc::OscPacket::Message(m) = packet else { return Ok(Packet::Bundle) };
    let args = m.args.into_iter().map(|a| match a {
        OscType::Bool(b) => Argument::Boolean(b),
        OscType::Int(i) => Argument::Integer(i),
        OscType::Long(l) => Argument::Long(l),
        OscType::String(s) => Argument::Text(s),
        _ => Argument::Other,
    }).collect();
    Ok(Packet::Message(Message { addr: m.addr, args }))
}

/// Encodes a message with `rosc::encoder::encode`. The result depends on the
/// message alone; `encoded_message` names it. Writing into a vector cannot
/// fail, so that function never returns an error.
#[verifier::external_body]
fn encode(message: &Message) -> (r: Result<Vec<u8>, OscError>)
    requires
        can_be_sent(message@),
    ensures
        match r {
            Ok(bytes) => bytes@ == encoded_message(message@),
            Err(_) => false,
        },
{
    let args = message.args.iter().map(|a| match a {
        Argument::Boolean(b) => OscType::Bool(*b),
        Argument::Integer(i) => OscType::Int(*i),
        Argument::Long(l) => OscType::Long(*l),
        Argument::Text(s) => OscType::String(s.clone()),
        Argument::Other => OscType::Nil,
    }).collect();
    let addr = message.addr.clone();
    rosc::encoder::encode(&rosc::OscPacket::Message(rosc::OscMessage { addr, args }))
}

/// Two notifications are at least this far apart, unless the later one marks
/// a special count: two seconds, in nanoseconds.
pub const COOLDOWN: i128 = 2_000_000_000;

/// The message that shows `text` in the chatbox: the text, then that it is
/// to be shown at once, then that no sound is to be played.
pub open spec fn chatbox_message(text: Seq<char>) -> MessageView {
    MessageView {
        addr: "/chatbox/input"@,
        args: seq![
            ArgumentView::Text(text),
            ArgumentView::Boolean(true),
            ArgumentView::Boolean(false),
        ],
    }
}

/// The datagram that shows `message` in the chatbox.
pub fn make_msg_buffer(message: String) -> (buffer: Option<Vec<u8>>)
    ensures
        buffer matches Some(bytes) && bytes@ == encoded_message(chatbox_message(message@)),
{
    let mut args: Vec<Argument> = Vec::new();
    args.push(Argument::Text(message));
    args.push(Argument::Boolean(true));
    args.push(Argument::Boolean(false));
    let packet = Message { addr: String::from_str("/chatbox/input"), args };
    proof {
        assert(packet@.args =~= chatbox_message(message@).args);
    }
    match encode(&packet) {
        Ok(bytes) => Some(bytes),
        Err(_) => None,
    }
}

/// Whether `text` ends in `suffix`.
pub open spec fn is_suffix_of(suffix: Seq<u8>, text: Seq<u8>) -> bool {
    suffix.len() <= text.len() && text.skip(text.len() - suffix.len()) == suffix
}

/// Whether `text` ends in `suffix`.
pub fn ends_with(text: &[u8], suffix: &[u8]) -> (ends: bool)
    ensures
        ends == is_suffix_of(suffix@, text@),
{
    if suffix.len() > text.len() {
        return false;
    }
    let from: usize = text.len() - suffix.len();
    let tail: &[u8] = vstd::slice::slice_subrange(text, from, text.len());
    proof {
        assert(tail@ =~= text@.skip(from as int));
    }
    same_bytes(tail, suffix)
}

/// What kind of event a message is.
#[derive(Debug, Clone, Copy, PartialEq, Eq, Structural)]
pub enum EventKind {
    /// A boop: it is counted and may be answered.
    Activity,
    /// The avatar was changed: the counters are written out.
    AvatarChange,
    /// Anything else.
    Ignored,
}

/// The kind of a message, for a service whose boops end in `boop_address`. A
/// boop has a first argument, and that argument is not `false`: `false`
/// reports that the contact has ended.
pub open spec fn event_kind(message: MessageView, boop_address: Seq<char>) -> EventKind {
    if is_suffix_of(encode_utf8(boop_address), encode_utf8(message.addr)) && message.args.len() > 0
        && message.args[0] != ArgumentView::Boolean(false) {
        EventKind::Activity
    } else if message.addr == "/avatar/change"@ {
        EventKind::AvatarChange
    } else {
        EventKind::Ignored
    }
}

/// Texts with the same bytes are the same text.
proof fn lemma_same_bytes_same_text(a: Seq<char>, b: Seq<char>)
    requires
        encode_utf8(a) == encode_utf8(b),
    ensures
        a == b,
{
    vstd::utf8::encode_utf8_decode_utf8(a);
    vstd::utf8::encode_utf8_decode_utf8(b);
}

/// Tells what kind of event a message is.
pub fn classify(message: &Message, boop_address: &str) -> (kind: EventKind)
    ensures
        kind == event_kind(message@, boop_address@),
{
    let addr: &[u8] = message.addr.as_str().as_bytes();
    if ends_with(addr, boop_address.as_bytes()) && message.args.len() > 0 {
        let first_is_false: bool = match &message.args[0] {
            Argument::Boolean(b) => !*b,
            _ => false,
        };
        if !first_is_false {
            return EventKind::Activity;
        }
    }
    proof {
        if encode_utf8(message.addr@) == encode_utf8("/avatar/change"@) {
            lemma_same_bytes_same_text(message.addr@, "/avatar/change"@);
        }
    }
    if same_bytes(addr, "/avatar/change".as_bytes()) {
        EventKind::AvatarChange
    } else {
        EventKind::Ignored
    }
}

/// Holds back notifications that follow one another too closely.
#[derive(Debug, Clone, Copy, PartialEq, Eq, Structural)]
pub struct CooldownGate {
    /// When the last notification went out.
    pub last_sent: Timestamp,
}

impl CooldownGate {
    /// Counts the cooldown from `now` on.
    pub fn new(now: Timestamp) -> (gate: Self)
        ensures
            gate.last_sent == now,
    {
        CooldownGate { last_sent: now }
    }

    /// Whether `now` lies more than the cooldown after the last notification.
    pub open spec fn spec_may_send(&self, now: Timestamp) -> bool {
        now.nanoseconds > self.last_sent.nanoseconds + COOLDOWN
    }

    /// Whether a notification may go out at `now`.
    #[verifier::when_used_as_spec(spec_may_send)]
    pub fn may_send(&self, now: Timestamp) -> (may: bool)
        ensures
            may == self.spec_may_send(now),
    {
        now.is_later_than(self.last_sent, COOLDOWN)
    }

    /// Notes that a notification went out at `now`.
    pub fn record_sent(&mut self, now: Timestamp)
        ensures
            final(self).last_sent == now,
    {
        self.last_sent = now;
    }
}

/// The text that the first rule with a say gives for `number`. Rules are
/// asked in their order. A rule whose number is larger than `number` ends the
/// search without a text; a rule that `number` ends in gives its text; any
/// other rule passes the question on.
pub open spec fn first_suffix(rules: Seq<RuleView>, number: u64) -> Option<Seq<char>>
    decreases rules.len(),
{
    if rules.len() == 0 {
        None
    } else if number < rules[0].value {
        None
    } else if ends_in(number, rules[0].value) {
        Some(rules[0].message)
    } else {
        first_suffix(rules.drop_first(), number)
    }
}

/// The text of the first rule that `number` ends in, whatever the numbers of
/// the rules before it.
pub open spec fn first_match(rules: Seq<RuleView>, number: u64) -> Option<Seq<char>>
    decreases rules.len(),
{
    if rules.len() == 0 {
        None
    } else if ends_in(number, rules[0].value) {
        Some(rules[0].message)
    } else {
        first_match(rules.drop_first(), number)
    }
}

/// Among rules in ascending order the search finds the first rule that the
/// number ends in: where it stops early, no later rule would have matched.
/// A number below the smallest rule gets no text.
pub proof fn lemma_first_suffix_is_first_match(rules: Seq<RuleView>, number: u64)
    requires
        ascending(rules),
    ensures
        first_suffix(rules, number) == first_match(rules, number),
        rules.len() > 0 && number < rules[0].value ==> first_suffix(rules, number).is_none(),
    decreases rules.len(),
{
    if rules.len() > 0 {
        let rest = rules.drop_first();
        assert(ascending(rest)) by {
            assert forall|i: int, j: int| 0 <= i < j < rest.len() implies rest[i].value
                <= rest[j].value by {
                assert(rest[i] == rules[i + 1]);
                assert(rest[j] == rules[j + 1]);
            }
        }
        lemma_first_suffix_is_first_match(rest, number);
        if number < rules[0].value {
            lemma_below_all_matches_none(rules, number);
        }
    }
}

/// A number below every rule ends in none of them.
proof fn lemma_below_all_matches_none(rules: Seq<RuleView>, number: u64)
    requires
        forall|i: int| 0 <= i < rules.len() ==> number < (#[trigger] rules[i]).value,
    ensures
        first_match(rules, number).is_none(),
    decreases rules.len(),
{
    if rules.len() > 0 {
        let rest = rules.drop_first();
        assert(number < rules[0].value);
        assert forall|i: int| 0 <= i < rest.len() implies number < (#[trigger] rest[i]).value by {
            assert(rest[i] == rules[i + 1]);
        }
        lemma_below_all_matches_none(rest, number);
    }
}

/// What a text adds to a line: nothing, or a blank and the text.
pub open spec fn suffix_text(suffix: Option<Seq<char>>) -> Seq<char> {
    match suffix {
        None => Seq::empty(),
        Some(text) => " "@ + text,
    }
}

/// The notification for the given counts: today's on the first line, the
/// count of all time on the second, each with the text that marks it.
pub open spec fn message_text(
    today: u32,
    today_suffix: Option<Seq<char>>,
    total: u64,
    total_suffix: Option<Seq<char>>,
) -> Seq<char> {
    "Today: "@ + decimal_text(today as nat) + suffix_text(today_suffix) + "\nTotal: "@
        + decimal_text(total as nat) + suffix_text(total_suffix)
}

/// The notification that the counters and the rules give.
pub open spec fn notification_text(storage: BoopStorage, rules: Seq<RuleView>) -> Seq<char> {
    message_text(
        storage.today_boops,
        first_suffix(rules, storage.today_boops as u64),
        storage.total_boops,
        first_suffix(rules, storage.total_boops),
    )
}

/// Whether one of the two counts is marked by a rule.
pub open spec fn is_special(storage: BoopStorage, rules: Seq<RuleView>) -> bool {
    first_suffix(rules, storage.today_boops as u64).is_some() || first_suffix(
        rules,
        storage.total_boops,
    ).is_some()
}

/// What the loop is asked to do after an event.
#[derive(Debug, PartialEq, Eq)]
pub struct Reaction {
    /// The notification to send, if one is due.
    pub send: Option<String>,
    /// Whether the counters are to be written out.
    pub save: bool,
}

/// What a reaction asks for.
pub struct ReactionView {
    /// The notification to send, if one is due.
    pub send: Option<Seq<char>>,
    /// Whether the counters are to be written out.
    pub save: bool,
}

impl View for Reaction {
    type V = ReactionView;

    open spec fn view(&self) -> ReactionView {
        ReactionView {
            send: match self.send {
                Some(text) => Some(text@),
                None => None,
            },
            save: self.save,
        }
    }
}

/// The reaction that asks for nothing.
pub open spec fn no_reaction() -> ReactionView {
    ReactionView { send: None, save: false }
}

/// A reaction together with the day and the instant at which the event was
/// taken.
pub struct Tick {
    pub reaction: Reaction,
    pub today: CivilDate,
    pub now: Timestamp,
}

/// The state of the event loop.
pub struct OscBooper {
    /// The counters.
    pub storage: BoopStorage,
    /// Keeps notifications apart.
    pub cooldown: CooldownGate,
    /// The settings.
    pub options: Options,
    /// Whether the loop still takes events.
    pub running: bool,
}

/// Appends a blank and `suffix`, if there is one.
fn append_suffix(out: &mut String, suffix: &Option<String>)
    ensures
        final(out)@ == old(out)@ + suffix_text(
            match suffix {
                Some(text) => Some(text@),
                None => None,
            },
        ),
{
    match suffix {
        Some(text) => {
            out.append(" ");
            out.append(text.as_str());
            assert(out@ =~= old(out)@ + (" "@ + text@));
        },
        None => {
            assert(out@ =~= old(out)@ + Seq::<char>::empty());
        },
    }
}

impl OscBooper {
    /// The rules of the settings.
    pub open spec fn rules(&self) -> Seq<RuleView> {
        rule_views(self.options.text_suffixes@)
    }

    /// A loop that starts with the given settings and counters, and counts
    /// the cooldown from `now` on.
    pub fn new(options: Options, storage: BoopStorage, now: Timestamp) -> (booper: Self)
        ensures
            booper == (OscBooper {
                storage,
                cooldown: CooldownGate { last_sent: now },
                options,
                running: true,
            }),
    {
        OscBooper { storage, cooldown: CooldownGate::new(now), options, running: true }
    }

    /// Whether the cooldown allows a notification at `now`.
    pub fn should_send_message(&self, now: Timestamp) -> (should: bool)
        ensures
            should == self.cooldown.spec_may_send(now),
    {
        self.cooldown.may_send(now)
    }

    /// The text that marks `number`, if a rule marks it.
    pub fn generate_text_suffix(&self, number: u64) -> (suffix: Option<String>)
        ensures
            match suffix {
                Some(text) => first_suffix(self.rules(), number) == Some(text@),
                None => first_suffix(self.rules(), number).is_none(),
            },
    {
        let ghost all: Seq<RuleView> = self.rules();
        let mut i: usize = 0;
        proof {
            assert(all.skip(0) =~= all);
        }
        while i < self.options.text_suffixes.len()
            invariant
                i <= self.options.text_suffixes@.len(),
                all == self.rules(),
                first_suffix(all, number) == first_suffix(all.skip(i as int), number),
            decreases self.options.text_suffixes@.len() - i,
        {
            let rule: &TextSuffix = &self.options.text_suffixes[i];
            proof {
                rule.lemma_view();
                assert(all.skip(i as int)[0] == rule@);
                assert(all.skip(i as int).drop_first() =~= all.skip(i + 1));
            }
            match rule.check_value(number) {
                TextSuffixResult::Break => {
                    return None;
                },
                TextSuffixResult::Skip => {},
                TextSuffixResult::Message(text) => {
                    return Some(text);
                },
            }
            i += 1;
        }
        proof {
            assert(all.skip(i as int) =~= Seq::<RuleView>::empty());
        }
        None
    }

    /// The notification for the counters as they stand, and whether a rule
    /// marks one of the two counts.
    pub fn generate_message(&self) -> (message: (String, bool))
        ensures
            message.0@ == notification_text(self.storage, self.rules()),
            message.1 == is_special(self.storage, self.rules()),
    {
        let (today_boops, total_boops) = self.storage.boop_numbers();
        let today_suffix: Option<String> = self.generate_text_suffix(today_boops as u64);
        let total_suffix: Option<String> = self.generate_text_suffix(total_boops);
        let is_suffixed: bool = today_suffix.is_some() || total_suffix.is_some();

        let mut text: String = String::from_str("Today: ");
        append_decimal(&mut text, today_boops as u64);
        append_suffix(&mut text, &today_suffix);
        text.append("\nTotal: ");
        append_decimal(&mut text, total_boops);
        append_suffix(&mut text, &total_suffix);
        (text, is_suffixed)
    }

    /// Notes that a notification went out at `now`: the cooldown counts from
    /// there.
    pub fn record_sent(&mut self, now: Timestamp)
        ensures
            *final(self) == (OscBooper {
                cooldown: CooldownGate { last_sent: now },
                ..*old(self)
            }),
    {
        self.cooldown.record_sent(now);
    }

    /// Notes that the counters were written out at `now`.
    pub fn record_saved(&mut self, now: Timestamp)
        ensures
            *final(self) == (OscBooper {
                storage: BoopStorage { last_save: now, ..old(self).storage },
                ..*old(self)
            }),
    {
        self.storage.saved(now);
    }

    /// Whether `message` can be handled on the day `today`: a boop needs room
    /// in the counters.
    pub open spec fn spec_can_handle(&self, message: MessageView, today: CivilDate) -> bool {
        event_kind(message, self.options.boop_address@) == EventKind::Activity
            ==> self.storage.spec_has_room(today)
    }

    /// Whether `message` can be handled on the day `today`.
    pub fn can_handle(&self, message: &Message, today: CivilDate) -> (can: bool)
        ensures
            can == self.spec_can_handle(message@, today),
    {
        match classify(message, self.options.boop_address.as_str()) {
            EventKind::Activity => self.storage.has_room(today),
            _ => true,
        }
    }

    /// The counters after `message` was handled on the day `today`: a boop is
    /// counted, nothing else changes them.
    pub open spec fn storage_after(&self, message: MessageView, today: CivilDate) -> BoopStorage {
        if event_kind(message, self.options.boop_address@) == EventKind::Activity {
            self.storage.after_boop(today)
        } else {
            self.storage
        }
    }

    /// The notification that `message` is answered with, if any: a boop is
    /// answered with the counts after it, where the cooldown has passed or a
    /// rule marks one of the counts.
    pub open spec fn notification_for(
        &self,
        message: MessageView,
        today: CivilDate,
        now: Timestamp,
    ) -> Option<Seq<char>> {
        let storage = self.storage_after(message, today);
        if event_kind(message, self.options.boop_address@) == EventKind::Activity && (is_special(
            storage,
            self.rules(),
        ) || self.cooldown.spec_may_send(now)) {
            Some(notification_text(storage, self.rules()))
        } else {
            None
        }
    }

    /// Whether the counters are to be written out after `message`: when the
    /// day has changed under a boop, when the avatar was changed, and, whatever
    /// the message, when the last writing is more than five minutes ago.
    pub open spec fn save_after(&self, message: MessageView, today: CivilDate, now: Timestamp) -> bool {
        match event_kind(message, self.options.boop_address@) {
            EventKind::Activity => today != self.storage.last_reset
                || self.storage.spec_time_to_save(now),
            EventKind::AvatarChange => true,
            EventKind::Ignored => self.storage.spec_time_to_save(now),
        }
    }

    /// What is asked for after `message`, received at `now` on the day
    /// `today`.
    pub open spec fn reaction_to(&self, message: MessageView, today: CivilDate, now: Timestamp) -> ReactionView {
        ReactionView {
            send: self.notification_for(message, today, now),
            save: self.save_after(message, today, now),
        }
    }

    /// Handles one message, received at `now` on the day `today`.
    pub fn handle_message(&mut self, message: &Message, today: CivilDate, now: Timestamp) -> (reaction:
        Reaction)
        requires
            old(self).spec_can_handle(message@, today),
        ensures
            *final(self) == (OscBooper {
                storage: old(self).storage_after(message@, today),
                ..*old(self)
            }),
            reaction@ == old(self).reaction_to(message@, today, now),
    {
        match classify(message, self.options.boop_address.as_str()) {
            EventKind::Activity => {
                let save: bool = self.storage.inc_boops(today, now);
                let (text, has_suffix) = self.generate_message();
                if !has_suffix && !self.should_send_message(now) {
                    return Reaction { send: None, save };
                }
                Reaction { send: Some(text), save }
            },
            EventKind::AvatarChange => Reaction { send: None, save: true },
            EventKind::Ignored => Reaction { send: None, save: self.storage.time_to_save(now) },
        }
    }

    /// Handles one packet. A bundle is passed over.
    pub fn handle_packet(&mut self, packet: &Packet, today: CivilDate, now: Timestamp) -> (reaction:
        Reaction)
        requires
            packet@ matches PacketView::Message(message) ==> old(self).spec_can_handle(
                message,
                today,
            ),
        ensures
            match packet@ {
                PacketView::Message(message) => {
                    &&& *final(self) == (OscBooper {
                        storage: old(self).storage_after(message, today),
                        ..*old(self)
                    })
                    &&& reaction@ == old(self).reaction_to(message, today, now)
                },
                PacketView::Bundle => *final(self) == *old(self) && reaction@ == no_reaction(),
            },
    {
        match packet {
            Packet::Message(message) => self.handle_message(message, today, now),
            Packet::Bundle => Reaction { send: None, save: false },
        }
    }

    /// The message that a datagram is handled as: the one it holds, unless it
    /// is a boop for which the counters have no room.
    pub open spec fn message_in(&self, data: Seq<u8>, today: CivilDate) -> Option<MessageView> {
        match decoded_packet(data) {
            Some(PacketView::Message(message)) => if self.spec_can_handle(message, today) {
                Some(message)
            } else {
                None
            },
            _ => None,
        }
    }

    /// The state after the datagram `data` was handled on the day `today`.
    pub open spec fn after_datagram(self, data: Seq<u8>, today: CivilDate) -> OscBooper {
        match self.message_in(data, today) {
            Some(message) => OscBooper { storage: self.storage_after(message, today), ..self },
            None => self,
        }
    }

    /// What is asked for after the datagram `data`, received at `now` on the
    /// day `today`.
    pub open spec fn datagram_reaction(&self, data: Seq<u8>, today: CivilDate, now: Timestamp) -> ReactionView {
        match self.message_in(data, today) {
            Some(message) => self.reaction_to(message, today, now),
            None => no_reaction(),
        }
    }

    /// Handles one datagram. Bytes that are no message change nothing and ask
    /// for nothing; so does a boop for which the counters have no room.
    pub fn handle_datagram(&mut self, data: &[u8], today: CivilDate, now: Timestamp) -> (reaction:
        Reaction)
        ensures
            *final(self) == old(self).after_datagram(data@, today),
            reaction@ == old(self).datagram_reaction(data@, today, now),
    {
        match decode_udp(data) {
            Ok(Packet::Message(message)) => {
                if self.can_handle(&message, today) {
                    self.handle_message(&message, today, now)
                } else {
                    Reaction { send: None, save: false }
                }
            },
            Ok(Packet::Bundle) => Reaction { send: None, save: false },
            Err(_) => Reaction { send: None, save: false },
        }
    }

    /// The state after one turn of the loop.
    pub open spec fn after_step(self, event: LoopEvent, today: CivilDate) -> OscBooper {
        if !self.running {
            self
        } else {
            match event {
                LoopEvent::Datagram(data) => self.after_datagram(data@, today),
                _ => OscBooper { running: false, ..self },
            }
        }
    }

    /// What is asked for after one turn of the loop.
    pub open spec fn step_reaction(&self, event: LoopEvent, today: CivilDate, now: Timestamp) -> ReactionView {
        if !self.running {
            no_reaction()
        } else {
            match event {
                LoopEvent::Datagram(data) => self.datagram_reaction(data@, today, now),
                _ => ReactionView { send: None, save: true },
            }
        }
    }

    /// One turn of the loop. While the loop runs, a datagram is handled; a
    /// cancellation or a broken socket stops the loop and asks for the
    /// counters to be written out one last time. A stopped loop does nothing.
    pub fn step(&mut self, event: &LoopEvent, today: CivilDate, now: Timestamp) -> (reaction:
        Reaction)
        ensures
            *final(self) == old(self).after_step(*event, today),
            reaction@ == old(self).step_reaction(*event, today, now),
    {
        if !self.running {
            return Reaction { send: None, save: false };
        }
        match event {
            LoopEvent::Datagram(data) => self.handle_datagram(data.as_slice(), today, now),
            LoopEvent::Cancelled => {
                self.running = false;
                Reaction { send: None, save: true }
            },
            LoopEvent::SocketFailed => {
                self.running = false;
                Reaction { send: None, save: true }
            },
        }
    }

    /// One turn of the loop at the day and the instant that the clock of the
    /// system shows; both are handed back with the reaction. Where the clock
    /// cannot be read, nothing happens.
    pub fn tick(&mut self, event: &LoopEvent) -> (tick: Option<Tick>)
        ensures
            match tick {
                Some(tick) => {
                    &&& *final(self) == old(self).after_step(*event, tick.today)
                    &&& tick.reaction@ == old(self).step_reaction(*event, tick.today, tick.now)
                },
                None => *final(self) == *old(self),
            },
    {
        match system_clock() {
            Some((today, now)) => {
                let reaction: Reaction = self.step(event, today, now);
                Some(Tick { reaction, today, now })
            },
            None => None,
        }
    }

    /// The state after `message` was handled at `now` and the notification, if
    /// one was due, went out at once.
    pub open spec fn handled(self, arrival: Arrival) -> OscBooper {
        OscBooper {
            storage: self.storage_after(arrival.message, arrival.today),
            cooldown: if self.answers(arrival) {
                CooldownGate { last_sent: arrival.now }
            } else {
                self.cooldown
            },
            ..self
        }
    }

    /// Whether the message of `arrival` is answered with a notification.
    pub open spec fn answers(self, arrival: Arrival) -> bool {
        self.notification_for(arrival.message, arrival.today, arrival.now).is_some()
    }

    /// The state after the messages of `arrivals` were handled one after the
    /// other.
    pub open spec fn after(self, arrivals: Seq<Arrival>) -> OscBooper
        decreases arrivals.len(),
    {
        if arrivals.len() == 0 {
            self
        } else {
            self.after(arrivals.drop_last()).handled(arrivals.last())
        }
    }

    /// A message whose address neither ends like a boop nor names a change of
    /// avatar has no effect: the counters stay, nothing is sent, and the
    /// counters are written out only if that is due anyway.
    pub proof fn lemma_other_addresses_have_no_effect(
        self,
        message: MessageView,
        today: CivilDate,
        now: Timestamp,
    )
        requires
            !is_suffix_of(encode_utf8(self.options.boop_address@), encode_utf8(message.addr)),
            message.addr != "/avatar/change"@,
        ensures
            self.storage_after(message, today) == self.storage,
            self.notification_for(message, today, now).is_none(),
            self.save_after(message, today, now) == self.storage.spec_time_to_save(now),
    {
    }

    /// A boop is counted whether or not it is answered.
    pub proof fn lemma_every_boop_is_counted(self, arrival: Arrival)
        requires
            event_kind(arrival.message, self.options.boop_address@) == EventKind::Activity,
            self.storage.spec_has_room(arrival.today),
        ensures
            self.handled(arrival).storage.total_boops == self.storage.total_boops + 1,
    {
    }

    /// Every boop of a run is counted, whether or not it is answered: after a
    /// run of boops the count of all time has grown by their number.
    pub proof fn lemma_boops_add_up(self, arrivals: Seq<Arrival>)
        requires
            forall|k: int|
                0 <= k < arrivals.len() ==> event_kind(
                    (#[trigger] arrivals[k]).message,
                    self.options.boop_address@,
                ) == EventKind::Activity,
            forall|k: int|
                0 <= k < arrivals.len() ==> self.after(arrivals.take(k)).storage.spec_has_room(
                    (#[trigger] arrivals[k]).today,
                ),
        ensures
            self.after(arrivals).storage.total_boops == self.storage.total_boops + arrivals.len(),
        decreases arrivals.len(),
    {
        if arrivals.len() > 0 {
            let front = arrivals.drop_last();
            let last = arrivals.last();
            assert forall|k: int| 0 <= k < front.len() implies event_kind(
                (#[trigger] front[k]).message,
                self.options.boop_address@,
            ) == EventKind::Activity && self.after(front.take(k)).storage.spec_has_room(
                front[k].today,
            ) by {
                assert(front[k] == arrivals[k]);
                assert(front.take(k) =~= arrivals.take(k));
            }
            self.lemma_boops_add_up(front);
            self.lemma_after_keeps_options(front);
            assert(arrivals.take(arrivals.len() - 1) =~= front);
            assert(last == arrivals[arrivals.len() - 1]);
            self.after(front).lemma_every_boop_is_counted(last);
        }
    }

    /// Handling messages leaves the settings alone.
    pub proof fn lemma_after_keeps_options(self, arrivals: Seq<Arrival>)
        ensures
            self.after(arrivals).options == self.options,
        decreases arrivals.len(),
    {
        if arrivals.len() > 0 {
            self.lemma_after_keeps_options(arrivals.drop_last());
        }
    }

    /// While messages arrive in the order of their times, the cooldown counts
    /// from a time that is not before any answered message.
    proof fn lemma_last_sent_follows(self, arrivals: Seq<Arrival>, i: int, k: int)
        requires
            in_order(arrivals),
            0 <= i < k <= arrivals.len(),
            self.after(arrivals.take(i)).answers(arrivals[i]),
        ensures
            self.after(arrivals.take(k)).cooldown.last_sent.nanoseconds
                >= arrivals[i].now.nanoseconds,
        decreases k,
    {
        let upto = arrivals.take(k);
        assert(upto.drop_last() =~= arrivals.take(k - 1));
        assert(upto.last() == arrivals[k - 1]);
        if k - 1 > i {
            self.lemma_last_sent_follows(arrivals, i, k - 1);
        }
    }

    /// Of two answered messages, the later one marks a special count or comes
    /// more than the cooldown after the earlier one: between special counts,
    /// no two notifications go out within one cooldown.
    pub proof fn lemma_one_notification_per_cooldown(self, arrivals: Seq<Arrival>, i: int, j: int)
        requires
            in_order(arrivals),
            0 <= i < j < arrivals.len(),
            self.after(arrivals.take(i)).answers(arrivals[i]),
            self.after(arrivals.take(j)).answers(arrivals[j]),
        ensures
            ({
                let before = self.after(arrivals.take(j));
                is_special(
                    before.storage_after(arrivals[j].message, arrivals[j].today),
                    self.rules(),
                ) || arrivals[j].now.nanoseconds > arrivals[i].now.nanoseconds + COOLDOWN
            }),
    {
        self.lemma_last_sent_follows(arrivals, i, j);
        self.lemma_after_keeps_options(arrivals.take(j));
    }
}

/// What the loop is told.
#[derive(Debug, Clone, PartialEq, Eq)]
pub enum LoopEvent {
    /// A datagram has arrived.
    Datagram(Vec<u8>),
    /// The service is asked to end.
    Cancelled,
    /// The socket can no longer be read.
    SocketFailed,
}

/// A message together with the day and the time at which it arrives.
pub struct Arrival {
    pub message: MessageView,
    pub today: CivilDate,
    pub now: Timestamp,
}

/// Whether no message arrives before the one in front of it.
pub open spec fn in_order(arrivals: Seq<Arrival>) -> bool {
    forall|i: int, j: int|
        0 <= i <= j < arrivals.len() ==> arrivals[i].now.nanoseconds <= arrivals[j].now.nanoseconds
}

} // verus!

use osc_booper::config::{Options, SuffixEntry};
use osc_booper::debounce::{clear_buffer, ClearTask, NotificationDebouncer, Rearm};
use osc_booper::osc::{
    classify, ends_with, make_msg_buffer, Argument, CooldownGate, EventKind, LoopEvent, Message,
    OscBooper, Packet, Reaction,
};
use osc_booper::storage::{BoopStorage, CivilDate, Timestamp};
use rosc::{OscMessage, OscPacket, OscType};

fn today() -> CivilDate {
    CivilDate { year: 2025, month: 3, day: 30 }
}

fn at(seconds: i64) -> Timestamp {
    Timestamp::from_seconds(seconds)
}

fn booper() -> OscBooper {
    OscBooper::new(Options::default(), BoopStorage::new(today(), at(0)), at(0))
}

fn booper_with_rules(rules: Vec<(u64, &str)>) -> OscBooper {
    let entries = rules
        .into_iter()
        .map(|(value, message)| SuffixEntry { value, message: message.to_string() })
        .collect();
    let options = Options::from_parts(None, None, Some(entries));
    OscBooper::new(options, BoopStorage::new(today(), at(0)), at(0))
}

fn boop() -> Message {
    Message {
        addr: "/avatar/parameters/OSCBoop".to_string(),
        args: vec![Argument::Boolean(true)],
    }
}

fn datagram(addr: &str, args: Vec<OscType>) -> Vec<u8> {
    rosc::encoder::encode(&OscPacket::Message(OscMessage { addr: addr.to_string(), args }))
        .unwrap()
}

fn nothing() -> Reaction {
    Reaction { send: None, save: false }
}

#[test]
fn suffix_is_found_by_its_ending() {
    let booper = booper_with_rules(vec![(69, "Nice"), (420, "Blaze it")]);
    assert_eq!(booper.generate_text_suffix(69), Some("Nice".to_string()));
    assert_eq!(booper.generate_text_suffix(12345669), Some("Nice".to_string()));
    assert_eq!(booper.generate_text_suffix(420), Some("Blaze it".to_string()));
    assert_eq!(booper.generate_text_suffix(1420), Some("Blaze it".to_string()));
}

#[test]
fn no_suffix_below_the_smallest_rule() {
    let booper = booper_with_rules(vec![(69, "Nice"), (420, "Blaze it")]);
    assert_eq!(booper.generate_text_suffix(0), None);
    assert_eq!(booper.generate_text_suffix(68), None);
}

#[test]
fn no_suffix_where_no_rule_matches() {
    let booper = booper_with_rules(vec![(69, "Nice"), (420, "Blaze it")]);
    assert_eq!(booper.generate_text_suffix(70), None);
    assert_eq!(booper.generate_text_suffix(419), None);
    assert_eq!(booper.generate_text_suffix(421), None);
    assert_eq!(booper_with_rules(vec![]).generate_text_suffix(69), None);
}

#[test]
fn the_first_matching_rule_wins() {
    let booper = booper_with_rules(vec![(9, "nine"), (69, "Nice")]);
    assert_eq!(booper.generate_text_suffix(69), Some("nine".to_string()));
    assert_eq!(booper.generate_text_suffix(9), Some("nine".to_string()));
    assert_eq!(booper.generate_text_suffix(68), None);
}

#[test]
fn message_shows_both_counts() {
    let mut booper = booper();
    assert_eq!(booper.generate_message(), ("Today: 0\nTotal: 0".to_string(), false));
    booper.storage.today_boops = 12;
    booper.storage.total_boops = 18_446_744_073_709_551_615;
    assert_eq!(
        booper.generate_message(),
        ("Today: 12\nTotal: 18446744073709551615".to_string(), false)
    );
}

#[test]
fn message_marks_special_counts() {
    let mut booper = booper();
    booper.storage.today_boops = 69;
    booper.storage.total_boops = 1000;
    assert_eq!(booper.generate_message(), ("Today: 69 Nice\nTotal: 1000".to_string(), true));
    booper.storage.today_boops = 7;
    booper.storage.total_boops = 1337;
    assert_eq!(
        booper.generate_message(),
        ("Today: 7\nTotal: 1337 much leet so wow".to_string(), true)
    );
    booper.storage.today_boops = 420;
    booper.storage.total_boops = 10621;
    assert_eq!(
        booper.generate_message(),
        ("Today: 420 Blaze it\nTotal: 10621 owo".to_string(), true)
    );
}

#[test]
fn addresses_are_matched_by_their_ending() {
    assert!(ends_with(b"/avatar/parameters/OSCBoop", b"/OSCBoop"));
    assert!(ends_with(b"/OSCBoop", b"/OSCBoop"));
    assert!(ends_with(b"anything", b""));
    assert!(!ends_with(b"OSCBoop", b"/OSCBoop"));
    assert!(!ends_with(b"/OSCBoop/x", b"/OSCBoop"));
    assert!(!ends_with(b"", b"/"));
}

#[test]
fn events_are_told_apart() {
    let message = |addr: &str, args: Vec<Argument>| Message { addr: addr.to_string(), args };
    let kind = |m: Message| classify(&m, "/OSCBoop");
    assert_eq!(kind(boop()), EventKind::Activity);
    assert_eq!(kind(message("/x/OSCBoop", vec![Argument::Integer(0)])), EventKind::Activity);
    assert_eq!(
        kind(message("/x/OSCBoop", vec![Argument::Text("false".into())])),
        EventKind::Activity
    );
    assert_eq!(kind(message("/x/OSCBoop", vec![Argument::Boolean(false)])), EventKind::Ignored);
    assert_eq!(kind(message("/x/OSCBoop", vec![])), EventKind::Ignored);
    assert_eq!(
        kind(message("/avatar/change", vec![Argument::Text("avtr_1".into())])),
        EventKind::AvatarChange
    );
    assert_eq!(kind(message("/avatar/change", vec![])), EventKind::AvatarChange);
    assert_eq!(kind(message("/avatar/changes", vec![])), EventKind::Ignored);
    assert_eq!(
        kind(message("/avatar/parameters/Viseme", vec![Argument::Integer(3)])),
        EventKind::Ignored
    );
}

#[test]
fn cooldown_is_strictly_two_seconds() {
    let mut gate = CooldownGate::new(at(10));
    assert!(!gate.may_send(at(10)));
    assert!(!gate.may_send(at(12)));
    assert!(gate.may_send(Timestamp { nanoseconds: 12_000_000_001 }));
    assert!(gate.may_send(at(13)));
    gate.record_sent(at(13));
    assert_eq!(gate.last_sent, at(13));
    assert!(!gate.may_send(at(15)));
    assert!(gate.may_send(at(16)));
}

#[test]
fn other_events_have_no_effect() {
    let mut booper = booper();
    let before = booper.storage;
    let message = Message {
        addr: "/avatar/parameters/Viseme".to_string(),
        args: vec![Argument::Integer(3)],
    };
    assert_eq!(booper.handle_message(&message, today(), at(100)), nothing());
    assert_eq!(booper.storage, before);
    assert_eq!(booper.cooldown.last_sent, at(0));
    assert_eq!(
        booper.handle_message(&message, today(), at(301)),
        Reaction { send: None, save: true }
    );
    assert_eq!(booper.storage, before);
}

#[test]
fn a_released_contact_is_not_counted() {
    let mut booper = booper();
    let release = Message {
        addr: "/avatar/parameters/OSCBoop".to_string(),
        args: vec![Argument::Boolean(false)],
    };
    assert_eq!(booper.handle_message(&release, today(), at(100)), nothing());
    assert_eq!(booper.storage.boop_numbers(), (0, 0));
}

#[test]
fn avatar_change_asks_for_a_save() {
    let mut booper = booper();
    let change = Message {
        addr: "/avatar/change".to_string(),
        args: vec![Argument::Text("avtr_123".to_string())],
    };
    assert_eq!(
        booper.handle_message(&change, today(), at(1)),
        Reaction { send: None, save: true }
    );
    assert_eq!(booper.storage.boop_numbers(), (0, 0));
}

#[test]
fn a_boop_after_the_cooldown_is_answered() {
    let mut booper = booper();
    assert_eq!(
        booper.handle_message(&boop(), today(), at(3)),
        Reaction { send: Some("Today: 1\nTotal: 1".to_string()), save: false }
    );
    assert_eq!(booper.storage.boop_numbers(), (1, 1));
    assert_eq!(booper.cooldown.last_sent, at(0));
}

#[test]
fn fast_boops_are_counted_but_answered_once() {
    let mut booper = booper();
    let mut sent = Vec::new();
    for tenth in 0..50i128 {
        let now = Timestamp { nanoseconds: 10_000_000_000 + tenth * 100_000_000 };
        let reaction = booper.handle_message(&boop(), today(), now);
        if reaction.send.is_some() {
            booper.record_sent(now);
            sent.push(tenth);
        }
    }
    assert_eq!(booper.storage.boop_numbers(), (50, 50));
    assert_eq!(sent, vec![0, 21, 42]);
}

#[test]
fn a_special_count_passes_the_cooldown() {
    let mut booper = booper();
    booper.storage.total_boops = 68;
    booper.storage.today_boops = 3;
    booper.record_sent(at(100));
    let reaction = booper.handle_message(&boop(), today(), at(100));
    assert_eq!(
        reaction,
        Reaction { send: Some("Today: 4\nTotal: 69 Nice".to_string()), save: false }
    );
    assert_eq!(booper.handle_message(&boop(), today(), at(100)), nothing());
    assert_eq!(booper.storage.boop_numbers(), (5, 70));
}

#[test]
fn a_boop_on_a_new_day_resets_and_saves() {
    let mut booper = booper();
    booper.handle_message(&boop(), today(), at(1));
    let tomorrow = CivilDate { year: 2025, month: 3, day: 31 };
    let reaction = booper.handle_message(&boop(), tomorrow, at(3));
    assert_eq!(
        reaction,
        Reaction { send: Some("Today: 1\nTotal: 2".to_string()), save: true }
    );
    assert_eq!(booper.storage.yesterday_boops, 1);
    assert_eq!(booper.storage.last_reset, tomorrow);
}

#[test]
fn a_boop_without_room_is_not_handled() {
    let mut booper = booper();
    booper.storage.total_boops = u64::MAX;
    assert!(!booper.can_handle(&boop(), today()));
    let bytes = datagram("/avatar/parameters/OSCBoop", vec![OscType::Bool(true)]);
    assert_eq!(booper.handle_datagram(&bytes, today(), at(10)), nothing());
    assert_eq!(booper.storage.total_boops, u64::MAX);
    let other = Message { addr: "/x".to_string(), args: vec![] };
    assert!(booper.can_handle(&other, today()));
}

#[test]
fn the_sixty_ninth_boop_is_nice() {
    let mut booper = booper();
    booper.storage.total_boops = 68;
    let bytes = datagram("/avatar/parameters/OSCBoop", vec![OscType::Bool(true)]);
    let reaction = booper.handle_datagram(&bytes, today(), at(0));
    let text = reaction.send.unwrap();
    assert_eq!(text, "Today: 1\nTotal: 69 Nice");
    assert!(text.lines().any(|line| line.contains("Nice")));
    assert_eq!(booper.storage.total_boops, 69);
}

#[test]
fn datagrams_are_decoded_before_they_are_handled() {
    let mut booper = booper();
    let released = datagram("/avatar/parameters/OSCBoop", vec![OscType::Bool(false)]);
    assert_eq!(booper.handle_datagram(&released, today(), at(10)), nothing());
    let float = datagram("/avatar/parameters/OSCBoop", vec![OscType::Float(0.5)]);
    assert_eq!(
        booper.handle_datagram(&float, today(), at(10)).send,
        Some("Today: 1\nTotal: 1".to_string())
    );
    let text = datagram("/avatar/change", vec![OscType::String("avtr_1".to_string())]);
    assert_eq!(
        booper.handle_datagram(&text, today(), at(10)),
        Reaction { send: None, save: true }
    );
    let other = datagram("/avatar/parameters/Viseme", vec![OscType::Int(3), OscType::Long(4)]);
    assert_eq!(booper.handle_datagram(&other, today(), at(10)), nothing());
    assert_eq!(booper.storage.boop_numbers(), (1, 1));
}

#[test]
fn malformed_datagrams_change_nothing() {
    let mut booper = booper();
    let before = booper.storage;
    assert_eq!(booper.handle_datagram(b"", today(), at(500)), nothing());
    assert_eq!(booper.handle_datagram(b"no osc", today(), at(500)), nothing());
    assert_eq!(booper.handle_datagram(&[0xff; 7], today(), at(500)), nothing());
    assert_eq!(booper.storage, before);
    assert!(booper.running);
}

#[test]
fn bundles_are_passed_over() {
    let mut booper = booper();
    let bundle = rosc::encoder::encode(&OscPacket::Bundle(rosc::OscBundle {
        timetag: (0, 1).into(),
        content: vec![OscPacket::Message(OscMessage {
            addr: "/avatar/parameters/OSCBoop".to_string(),
            args: vec![OscType::Bool(true)],
        })],
    }))
    .unwrap();
    assert_eq!(booper.handle_datagram(&bundle, today(), at(500)), nothing());
    assert_eq!(booper.handle_packet(&Packet::Bundle, today(), at(500)), nothing());
    assert_eq!(booper.storage.boop_numbers(), (0, 0));
    let packet = Packet::Message(boop());
    assert_eq!(
        booper.handle_packet(&packet, today(), at(500)),
        Reaction { send: Some("Today: 1\nTotal: 1".to_string()), save: true }
    );
}

#[test]
fn the_loop_stops_on_cancellation_with_a_last_save() {
    let mut booper = booper();
    let bytes = datagram("/avatar/parameters/OSCBoop", vec![OscType::Bool(true)]);
    let reaction = booper.step(&LoopEvent::Datagram(bytes.clone()), today(), at(5));
    assert_eq!(reaction.send, Some("Today: 1\nTotal: 1".to_string()));
    assert!(booper.running);

    assert_eq!(
        booper.step(&LoopEvent::Cancelled, today(), at(6)),
        Reaction { send: None, save: true }
    );
    assert!(!booper.running);
    assert_eq!(booper.step(&LoopEvent::Datagram(bytes), today(), at(9)), nothing());
    assert_eq!(booper.step(&LoopEvent::Cancelled, today(), at(9)), nothing());
    assert_eq!(booper.storage.boop_numbers(), (1, 1));
}

#[test]
fn the_loop_stops_on_a_broken_socket() {
    let mut booper = booper();
    assert_eq!(
        booper.step(&LoopEvent::SocketFailed, today(), at(6)),
        Reaction { send: None, save: true }
    );
    assert!(!booper.running);
}

#[test]
fn a_turn_by_the_clock_hands_back_the_time() {
    let mut booper = booper();
    let bytes = datagram("/avatar/parameters/OSCBoop", vec![OscType::Bool(true)]);
    let before = jiff::Timestamp::now().as_nanosecond();
    let tick = booper.tick(&LoopEvent::Datagram(bytes)).unwrap();
    let after = jiff::Timestamp::now().as_nanosecond();
    assert!(before <= tick.now.nanoseconds && tick.now.nanoseconds <= after);
    let date = jiff::Timestamp::from_nanosecond(tick.now.nanoseconds)
        .unwrap()
        .to_zoned(jiff::tz::TimeZone::system())
        .date();
    assert_eq!((tick.today.year, tick.today.month, tick.today.day), (date.year(), date.month(), date.day()));
    assert_eq!(booper.storage.total_boops, 1);
    assert_eq!(booper.storage.last_reset, tick.today);
    assert_eq!(tick.reaction.send, Some("Today: 1\nTotal: 1".to_string()));
    assert!(tick.reaction.save);

    let tick = booper.tick(&LoopEvent::Cancelled).unwrap();
    assert_eq!(tick.reaction, Reaction { send: None, save: true });
    assert!(!booper.running);
    let tick = booper.tick(&LoopEvent::Cancelled).unwrap();
    assert_eq!(tick.reaction, nothing());
}

#[test]
fn saving_is_recorded() {
    let mut booper = booper();
    booper.record_saved(at(77));
    assert_eq!(booper.storage.last_save, at(77));
    assert!(booper.should_send_message(at(3)));
    booper.record_sent(at(3));
    assert!(!booper.should_send_message(at(5)));
}

#[test]
fn chatbox_buffer_holds_text_and_both_flags() {
    let buffer = make_msg_buffer("Today: 1\nTotal: 1".to_string()).unwrap();
    let (rest, packet) = rosc::decoder::decode_udp(&buffer).unwrap();
    assert!(rest.is_empty());
    assert_eq!(
        packet,
        OscPacket::Message(OscMessage {
            addr: "/chatbox/input".to_string(),
            args: vec![
                OscType::String("Today: 1\nTotal: 1".to_string()),
                OscType::Bool(true),
                OscType::Bool(false),
            ],
        })
    );
}

#[test]
fn chatbox_buffer_is_padded_to_four_bytes() {
    let buffer = make_msg_buffer("hi".to_string()).unwrap();
    assert_eq!(buffer, b"/chatbox/input\0\0,sTF\0\0\0\0hi\0\0".to_vec());
}

#[test]
fn clearing_sends_the_empty_text() {
    let buffer = clear_buffer().unwrap();
    assert_eq!(buffer, make_msg_buffer(String::new()).unwrap());
    let (_, packet) = rosc::decoder::decode_udp(&buffer).unwrap();
    assert_eq!(
        packet,
        OscPacket::Message(OscMessage {
            addr: "/chatbox/input".to_string(),
            args: vec![OscType::String(String::new()), OscType::Bool(true), OscType::Bool(false)],
        })
    );
}

#[test]
fn a_notification_starts_a_timer() {
    let mut debouncer = NotificationDebouncer::new();
    assert_eq!(debouncer.pending, None);
    let rearm = debouncer.notify_sent(at(10));
    assert_eq!(rearm, Rearm { cancel: None, start: ClearTask { id: 0, started: at(10) } });
    assert_eq!(debouncer.pending, Some(ClearTask { id: 0, started: at(10) }));
    assert!(debouncer.timer_fired(0));
    assert_eq!(debouncer.pending, None);
    assert!(!debouncer.timer_fired(0));
}

#[test]
fn a_second_notification_restarts_the_timer() {
    let mut debouncer = NotificationDebouncer::new();
    let first = debouncer.notify_sent(at(10));
    let second = debouncer.notify_sent(at(12));
    assert_eq!(second.cancel, Some(first.start.id));
    assert_eq!(second.start, ClearTask { id: 1, started: at(12) });
    assert_eq!(debouncer.pending, Some(second.start));

    let mut clears = 0;
    for id in [first.start.id, second.start.id, first.start.id, second.start.id] {
        if debouncer.timer_fired(id) {
            clears += 1;
        }
    }
    assert_eq!(clears, 1);
    assert_eq!(debouncer.pending, None);
}

#[test]
fn timer_ids_start_over_after_the_largest() {
    let mut debouncer = NotificationDebouncer { pending: None, next_id: u64::MAX };
    let rearm = debouncer.notify_sent(at(1));
    assert_eq!(rearm.start.id, u64::MAX);
    assert_eq!(debouncer.next_id, 0);
    let rearm = debouncer.notify_sent(at(2));
    assert_eq!(rearm, Rearm { cancel: Some(u64::MAX), start: ClearTask { id: 0, started: at(2) } });
}

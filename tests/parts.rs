use simple_rtp_engine::{
    decimal_text, signed_text, answer_codecs, CallLeg, Endpoint, UdpTransport, UdpTransportConfig, channel_build, get_sdp, BusChannelControl, CallMediaStore, ChannelId, MsgHub, NetAddr, PortRange,
    RtpInput, RtpOutput, RtpState, RtpTask, Subscriber, TaskId,
};

const OFFER: &str = "v=0\r\no=Z 0 2120575 IN IP4 123.16.85.0\r\ns=Z\r\nc=IN IP4 14.225.211.34\r\nt=0 0\r\nm=audio 23018 RTP/AVP 106 9 0 8 3 98 101\r\na=rtpmap:106 opus/48000/2\r\na=sendrecv\r\n";

#[test]
fn store_hands_out_ports_in_order_and_takes_them_back() {
    let mut store = CallMediaStore::new(PortRange { min: 7000, max: 7003 });
    assert_eq!(store.next_port(), Some(7000));
    assert_eq!(store.next_port(), Some(7001));
    store.push_port(7000);
    assert_eq!(store.next_port(), Some(7002));
    assert_eq!(store.next_port(), Some(7000));
    assert_eq!(store.next_port(), None);
}

#[test]
fn store_remove_call_frees_ports_and_bindings() {
    let mut store = CallMediaStore::new(PortRange { min: 8000, max: 8002 });
    let first = store.next_port().unwrap();
    let second = store.next_port().unwrap();
    store.assign_port(TaskId::Rtp(0), first);
    store.assign_port(TaskId::Rtp(1), second);
    let a0 = NetAddr::new("10.0.0.1".to_string(), 4000);
    store.add_task(a0.clone(), TaskId::Rtp(0));
    store.add_call(5, TaskId::Rtp(0));
    store.add_call(6, TaskId::Rtp(1));
    store.save_slot_task(TaskId::Rtp(0), 33);
    store.add_backend(a0.clone(), 33);
    assert_eq!(store.get_call(5).unwrap().clone(), vec![TaskId::Rtp(0)]);
    assert_eq!(store.get_task(&a0), Some(TaskId::Rtp(0)));
    assert_eq!(store.get_backend(&a0), Some(33));
    assert_eq!(store.get_backend_by_task(&TaskId::Rtp(0)), Some(33));
    assert_eq!(store.get_slot_by_task(&TaskId::Rtp(0)), Some(33));
    store.remove_call(5);
    assert!(store.get_call(5).is_none());
    assert_eq!(store.get_task(&a0), None);
    assert_eq!(store.get_slot_by_task(&TaskId::Rtp(0)), None);
    assert_eq!(store.port_of_task(&TaskId::Rtp(0)), None);
    assert_eq!(store.port_of_task(&TaskId::Rtp(1)), Some(8001));
    assert_eq!(store.next_port(), Some(8000));
    assert_eq!(store.next_port(), None);
    // a second removal changes nothing
    store.remove_call(5);
    assert_eq!(store.next_port(), None);
}

#[test]
fn store_local_address_binding() {
    let mut store = CallMediaStore::new(PortRange { min: 1, max: 1 });
    let local = NetAddr::new("0.0.0.0".to_string(), 9000);
    store.assign_port(TaskId::Rtp(4), 9000);
    store.save_addr_task(local.clone(), TaskId::Rtp(4));
    assert_eq!(store.get_task_by_addr(&local), Some(TaskId::Rtp(4)));
    assert_eq!(store.get_task_by_addr(&NetAddr::new("0.0.0.0".to_string(), 9001)), None);
    store.remove_task(&TaskId::Rtp(4));
    assert_eq!(store.get_task_by_addr(&local), Some(TaskId::Rtp(4)));
}

#[test]
fn task_activates_publishes_and_forwards() {
    let (mut task, addr, _answer) = RtpTask::build(1, 2, 10000, "1.2.3.4", OFFER).unwrap();
    assert_eq!(addr, NetAddr::new("14.225.211.34".to_string(), 23018));
    assert_eq!(task.port_number(), 10000);
    // a pending task ignores payloads
    assert!(task.on_event(0, RtpInput::UdpPacket { data: vec![1] }).is_none());
    match task.on_bind_confirmed(0) {
        Some(RtpOutput::Bus(BusChannelControl::Subscribe(ChannelId::Call(1)))) => {},
        other => panic!("unexpected {other:?}"),
    }
    assert!(task.is_active());
    match task.on_event(0, RtpInput::UdpPacket { data: vec![1, 2] }) {
        Some(RtpOutput::Bus(BusChannelControl::Publish(ChannelId::Call(1), true, p))) => {
            assert_eq!(p.from, 2);
            assert_eq!(p.data, vec![1, 2]);
        },
        other => panic!("unexpected {other:?}"),
    }
    match task.on_event(0, RtpInput::Bus { from: 3, data: vec![9] }) {
        Some(RtpOutput::Forward { to, data }) => {
            assert_eq!(to, NetAddr::new("14.225.211.34".to_string(), 23018));
            assert_eq!(data, vec![9]);
        },
        other => panic!("unexpected {other:?}"),
    }
    // its own leg's payload is dropped
    assert!(task.on_event(0, RtpInput::Bus { from: 2, data: vec![9] }).is_none());
    assert!(task.on_tick(1).is_none());
    assert!(task.pop_output(1).is_none());
    match task.shutdown(2) {
        Some(RtpOutput::Destroy(10000)) => {},
        other => panic!("unexpected {other:?}"),
    }
    assert!(task.shutdown(3).is_none());
    assert!(task.on_event(4, RtpInput::Bus { from: 3, data: vec![9] }).is_none());
}

#[test]
fn task_build_refuses_bad_offer() {
    assert!(RtpTask::build(1, 2, 10000, "1.2.3.4", "garbage").is_err());
}

#[test]
fn hub_excludes_the_publisher() {
    let mut hub = MsgHub::new();
    let a = Subscriber { slot: 0, generation: 0 };
    let b = Subscriber { slot: 1, generation: 0 };
    let c = Subscriber { slot: 2, generation: 0 };
    hub.subcribe(ChannelId::Call(7), a);
    hub.subcribe(ChannelId::Call(7), b);
    hub.subcribe(ChannelId::Call(7), b);
    hub.subcribe(ChannelId::Call(8), c);
    assert_eq!(hub.publish(ChannelId::Call(7), a, true), vec![b]);
    assert_eq!(hub.publish(ChannelId::Call(7), a, false), vec![a, b]);
    assert_eq!(hub.publish(ChannelId::Call(9), a, true), vec![]);
    hub.unsubcribe(ChannelId::Call(7), b);
    assert_eq!(hub.publish(ChannelId::Call(7), c, true), vec![a]);
}

#[test]
fn answer_advertises_the_fixed_codecs_and_port() {
    let (addr, answer) = get_sdp(OFFER, "1.2.3.4", 10002).unwrap();
    assert_eq!(addr.host, "14.225.211.34");
    assert_eq!(addr.port, 23018);
    assert!(answer.contains("m=audio 10002 RTP/AVP 106 9 0 8 3 98 101"), "{answer}");
    assert!(answer.contains("c=IN IP4 1.2.3.4"), "{answer}");
    assert!(answer.contains("o=Z 0 2120575 IN IP4 123.16.85.0"), "{answer}");
    let order = [
        "a=rtpmap:106 opus/48000/2",
        "a=fmtp:106 sprop-maxcapturerate=16000; minptime=20; useinbandfec=1",
        "a=rtpmap:9 G722/8000",
        "a=rtpmap:0 PCMU/8000",
        "a=rtpmap:8 PCMA/8000",
        "a=rtpmap:3 GSM/8000",
        "a=rtpmap:98 telephone-event/48000",
        "a=fmtp:98 0-16",
        "a=rtpmap:101 telephone-event/8000",
        "a=fmtp:101 0-16",
        "a=sendrecv",
        "a=rtcp:10002",
        "a=rtcp-mux",
    ];
    let mut at = 0;
    for line in order {
        let found = answer[at..].find(line).unwrap_or_else(|| panic!("{line} missing in {answer}"));
        at += found + line.len();
    }
}

#[test]
fn codec_table_is_fixed() {
    let codecs = answer_codecs();
    let names: Vec<(u8, String, u32, u16)> =
        codecs.iter().map(|c| (c.payload_type, c.name.clone(), c.clock_rate, c.channels)).collect();
    assert_eq!(
        names,
        vec![
            (106, "opus".to_string(), 48000, 2),
            (9, "G722".to_string(), 8000, 0),
            (0, "PCMU".to_string(), 8000, 0),
            (8, "PCMA".to_string(), 8000, 0),
            (3, "GSM".to_string(), 8000, 0),
            (98, "telephone-event".to_string(), 48000, 0),
            (101, "telephone-event".to_string(), 8000, 0),
        ]
    );
}

#[test]
fn identifiers_hash_deterministically() {
    assert_eq!(channel_build("call-1"), channel_build("call-1"));
    assert_ne!(channel_build("call-1"), channel_build("call-2"));
}

#[test]
fn task_state_starts_pending() {
    let task = RtpTask::new(1, 2, 3, NetAddr::new("h".to_string(), 4));
    assert!(!task.is_active());
    assert_eq!(task.leg(), 2);
    assert_eq!(task.call(), 1);
    assert_eq!(task.remote_addr(), NetAddr::new("h".to_string(), 4));
    let _ = RtpState::Pending;
}

fn three_subscribers() -> (MsgHub, [Subscriber; 3]) {
    let mut bus = MsgHub::new();
    let subs = [
        Subscriber { slot: 0, generation: 0 },
        Subscriber { slot: 1, generation: 0 },
        Subscriber { slot: 2, generation: 0 },
    ];
    for s in subs {
        bus.subcribe(ChannelId::Call(1), s);
    }
    (bus, subs)
}

/// Runs `deliver` for each payload and collects what each subscriber received.
fn collect(subs: &[Subscriber; 3], queue: &[i32], deliver: impl Fn() -> Vec<Subscriber>) -> [Vec<i32>; 3] {
    let mut got: [Vec<i32>; 3] = [vec![], vec![], vec![]];
    for data in queue {
        for s in deliver() {
            let at = subs.iter().position(|x| *x == s).unwrap();
            got[at].push(*data);
        }
    }
    got
}

#[test]
fn test_send_boardcast_msg() {
    let (bus, subs) = three_subscribers();
    let queue = vec![1, 2, 3, 4, 5, 6];
    let got = collect(&subs, &queue, || bus.publish(ChannelId::Call(1), subs[0], false));
    assert_eq!(queue, got[0]);
    assert_eq!(queue, got[1]);
    assert_eq!(queue, got[2]);
}

#[test]
fn test_send_boardcast_to_other() {
    let (bus, subs) = three_subscribers();
    let queue = vec![1, 2, 3, 4, 5, 6];
    let got = collect(&subs, &queue, || bus.publish(ChannelId::Call(1), subs[0], true));
    assert_eq!(vec![] as Vec<i32>, got[0]);
    assert_eq!(queue, got[1]);
    assert_eq!(queue, got[2]);
}

#[test]
fn test_send_direct() {
    let (bus, subs) = three_subscribers();
    let queue = vec![1, 2, 3, 4, 5, 6];
    let got = collect(&subs, &queue, || bus.publish_direct(ChannelId::Call(1), subs[1]));
    assert_eq!(vec![] as Vec<i32>, got[0]);
    assert_eq!(queue, got[1]);
    assert_eq!(vec![] as Vec<i32>, got[2]);
}

#[test]
fn transport_answers_with_its_ports() {
    let cfg = UdpTransportConfig { addr: "9.9.9.9".to_string(), rtp_port: 31000, rtcp_port: 31001 };
    let (_t, answer) = UdpTransport::new(cfg.clone(), OFFER).unwrap();
    assert!(answer.contains("m=audio 31000 RTP/AVP"), "{answer}");
    assert!(answer.contains("a=rtcp:31001"), "{answer}");
    assert!(answer.contains("c=IN IP4 9.9.9.9"), "{answer}");
    assert!(UdpTransport::new(cfg, "nonsense").is_err());
}

#[test]
fn endpoint_and_leg_keep_their_fields() {
    let e = Endpoint::new("leg".to_string(), "call".to_string());
    assert_eq!(e.id, "leg");
    assert_eq!(e.call_id, "call");
    let l = CallLeg::new("l".to_string(), "r".to_string(), "o".to_string(), 1, 2);
    assert_eq!((l.id.as_str(), l.remote_sdp.as_str(), l.local_sdp.as_str(), l.rtp_port, l.rtcp_port), ("l", "r", "o", 1, 2));
}

#[test]
fn numbers_are_written_in_decimal() {
    assert_eq!(decimal_text(0), "0");
    assert_eq!(decimal_text(7), "7");
    assert_eq!(decimal_text(10000), "10000");
    assert_eq!(decimal_text(u64::MAX), u64::MAX.to_string());
    assert_eq!(signed_text(-42), "-42");
    assert_eq!(signed_text(isize::MIN), isize::MIN.to_string());
    assert_eq!(signed_text(65535), "65535");
}

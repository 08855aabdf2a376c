use simple_rtp_engine::{
    BackendIncoming, BackendOutgoing, Config, ExtInput, ExtOut, MediaRpcCmd, MediaRpcRequest, MediaRpcResult, NetAddr,
    PortRange, RtpEngineMediaWorker, WorkerInput, WorkerOutput,
};

fn offer(ip: &str, port: u16) -> String {
    format!(
        "v=0\r\no=Z 0 2120575 IN IP4 123.16.85.0\r\ns=Z\r\nc=IN IP4 {ip}\r\nt=0 0\r\nm=audio {port} RTP/AVP 0 8\r\na=rtpmap:0 PCMU/8000\r\na=rtpmap:8 PCMA/8000\r\na=sendrecv\r\n"
    )
}

fn worker(min: usize, max: usize) -> RtpEngineMediaWorker {
    RtpEngineMediaWorker::build(0, Config { port_range: PortRange { min, max }, public_ip: "1.2.3.4".to_string() })
}

fn call(w: &mut RtpEngineMediaWorker, call_id: &str, leg_id: &str, sdp: &str) -> MediaRpcResult {
    let req = MediaRpcRequest {
        id: format!("{call_id}-{leg_id}"),
        cmd: MediaRpcCmd::Call(call_id.to_string(), leg_id.to_string(), sdp.to_string()),
    };
    let resp = w.process_rpc_request(req);
    assert_eq!(resp.id, format!("{call_id}-{leg_id}"));
    resp.res
}

fn end(w: &mut RtpEngineMediaWorker, call_id: &str) -> MediaRpcResult {
    let req = MediaRpcRequest { id: "end".to_string(), cmd: MediaRpcCmd::End(call_id.to_string()) };
    w.process_rpc_request(req).res
}

fn drain(w: &mut RtpEngineMediaWorker) -> Vec<WorkerOutput> {
    let mut out = Vec::new();
    while let Some(o) = w.pop_output(0) {
        out.push(o);
    }
    out
}

/// The ports that the drained outputs ask the backend to listen on.
fn listened(outputs: &[WorkerOutput]) -> Vec<u16> {
    outputs
        .iter()
        .filter_map(|o| match o {
            WorkerOutput::Net(BackendOutgoing::UdpListen { addr, reuse }) => {
                assert_eq!(addr.host, "0.0.0.0");
                assert!(!reuse);
                Some(addr.port)
            },
            _ => None,
        })
        .collect()
}

fn answer_of(res: MediaRpcResult) -> String {
    match res {
        MediaRpcResult::Call(sdp) => sdp,
        other => panic!("expected an answer, got {other:?}"),
    }
}

#[test]
fn two_ports_three_legs_then_end_and_reuse() {
    let mut w = worker(10000, 10002);
    let a1 = answer_of(call(&mut w, "c1", "L1", &offer("10.0.0.1", 4000)));
    assert!(a1.contains("m=audio 10000 RTP/AVP"), "{a1}");
    assert_eq!(listened(&drain(&mut w)), vec![10000]);
    let a2 = answer_of(call(&mut w, "c1", "L2", &offer("10.0.0.2", 4002)));
    assert!(a2.contains("m=audio 10001 RTP/AVP"), "{a2}");
    assert_eq!(listened(&drain(&mut w)), vec![10001]);
    assert_eq!(
        call(&mut w, "c1", "L3", &offer("10.0.0.3", 4004)),
        MediaRpcResult::Error("No available port".to_string())
    );
    assert!(drain(&mut w).is_empty());
    assert_eq!(end(&mut w, "c1"), MediaRpcResult::End);
    drain(&mut w);
    let a4 = answer_of(call(&mut w, "c2", "L4", &offer("10.0.0.4", 4006)));
    let ports = listened(&drain(&mut w));
    assert_eq!(ports.len(), 1);
    assert!(ports[0] == 10000 || ports[0] == 10001);
    assert!(a4.contains(&format!("m=audio {} RTP/AVP", ports[0])), "{a4}");
}

#[test]
fn n_calls_take_n_distinct_ports_in_order() {
    let mut w = worker(20000, 20010);
    let mut ports = Vec::new();
    for i in 0..4u16 {
        answer_of(call(&mut w, "c", &format!("L{i}"), &offer("10.0.0.1", 5000 + i)));
        ports.extend(listened(&drain(&mut w)));
    }
    assert_eq!(ports, vec![20000, 20001, 20002, 20003]);
}

#[test]
fn empty_pool_refuses_and_changes_nothing() {
    let mut w = worker(30000, 30000);
    assert_eq!(
        call(&mut w, "c", "L", &offer("10.0.0.1", 5000)),
        MediaRpcResult::Error("No available port".to_string())
    );
    assert!(drain(&mut w).is_empty());
    assert_eq!(w.tasks(), 0);
}

#[test]
fn malformed_offer_is_refused_and_port_kept() {
    let mut w = worker(40000, 40002);
    match call(&mut w, "c", "L", "this is not a session description") {
        MediaRpcResult::Error(reason) => assert!(!reason.is_empty()),
        other => panic!("expected an error, got {other:?}"),
    }
    assert!(drain(&mut w).is_empty());
    answer_of(call(&mut w, "c", "L", &offer("10.0.0.1", 5000)));
    assert_eq!(listened(&drain(&mut w)), vec![40000]);
}

#[test]
fn offer_without_connection_line_is_refused() {
    let mut w = worker(40000, 40002);
    let sdp = "v=0\r\no=Z 0 1 IN IP4 1.1.1.1\r\ns=Z\r\nt=0 0\r\nm=audio 4000 RTP/AVP 0\r\n";
    assert_eq!(
        call(&mut w, "c", "L", sdp),
        MediaRpcResult::Error("session description has no connection address".to_string())
    );
}

#[test]
fn offer_without_media_is_refused() {
    let mut w = worker(40000, 40002);
    let sdp = "v=0\r\no=Z 0 1 IN IP4 1.1.1.1\r\ns=Z\r\nc=IN IP4 10.0.0.1\r\nt=0 0\r\n";
    assert_eq!(
        call(&mut w, "c", "L", sdp),
        MediaRpcResult::Error("session description has no media description".to_string())
    );
}

#[test]
fn ping_is_answered_with_pong() {
    let mut w = worker(40000, 40002);
    let resp = w.process_rpc_request(MediaRpcRequest { id: "p".to_string(), cmd: MediaRpcCmd::Ping });
    assert_eq!(resp.res, MediaRpcResult::Pong);
}

#[test]
fn ending_twice_and_ending_unknown_calls_change_nothing() {
    let mut w = worker(50000, 50002);
    answer_of(call(&mut w, "c1", "L1", &offer("10.0.0.1", 4000)));
    drain(&mut w);
    assert_eq!(end(&mut w, "nope"), MediaRpcResult::End);
    assert!(drain(&mut w).is_empty());
    assert_eq!(end(&mut w, "c1"), MediaRpcResult::End);
    drain(&mut w);
    assert_eq!(end(&mut w, "c1"), MediaRpcResult::End);
    assert!(drain(&mut w).is_empty());
    // both ports are free again: two more legs fit, a third does not
    answer_of(call(&mut w, "c2", "A", &offer("10.0.0.1", 4000)));
    answer_of(call(&mut w, "c2", "B", &offer("10.0.0.2", 4000)));
    assert!(matches!(call(&mut w, "c2", "C", &offer("10.0.0.3", 4000)), MediaRpcResult::Error(_)));
}

#[test]
fn end_releases_only_that_calls_ports() {
    let mut w = worker(51000, 51003);
    answer_of(call(&mut w, "a", "A1", &offer("10.0.0.1", 4000)));
    answer_of(call(&mut w, "b", "B1", &offer("10.0.0.2", 4000)));
    answer_of(call(&mut w, "a", "A2", &offer("10.0.0.3", 4000)));
    drain(&mut w);
    end(&mut w, "a");
    drain(&mut w);
    let mut ports = Vec::new();
    for leg in ["X", "Y"] {
        answer_of(call(&mut w, "c", leg, &offer("10.0.0.9", 4000)));
        ports.extend(listened(&drain(&mut w)));
    }
    ports.sort();
    assert_eq!(ports, vec![51000, 51002]);
    assert!(matches!(call(&mut w, "c", "Z", &offer("10.0.0.9", 4000)), MediaRpcResult::Error(_)));
}

fn bind(w: &mut RtpEngineMediaWorker, port: u16, slot: usize) {
    let addr = NetAddr::new("0.0.0.0".to_string(), port);
    let input = WorkerInput::Net(BackendIncoming::UdpListenResult {
        bind: addr.clone(),
        result: Ok((addr, slot)),
    });
    assert!(w.on_event(0, input).is_none());
}

fn packet(w: &mut RtpEngineMediaWorker, slot: usize, host: &str, port: u16, data: &[u8]) -> Vec<(usize, String, u16, Vec<u8>)> {
    let input = WorkerInput::Net(BackendIncoming::UdpPacket {
        slot,
        from: NetAddr::new(host.to_string(), port),
        data: data.to_vec(),
    });
    assert!(w.on_event(0, input).is_none());
    drain(w)
        .into_iter()
        .map(|o| match o {
            WorkerOutput::Net(BackendOutgoing::UdpPacket { slot, to, data }) => (slot, to.host, to.port, data),
            other => panic!("unexpected output {other:?}"),
        })
        .collect()
}

#[test]
fn packet_fans_out_to_the_other_legs_of_the_call() {
    let mut w = worker(60000, 60010);
    answer_of(call(&mut w, "c1", "L1", &offer("10.0.0.1", 7001)));
    answer_of(call(&mut w, "c1", "L2", &offer("10.0.0.2", 7002)));
    answer_of(call(&mut w, "c1", "L3", &offer("10.0.0.3", 7003)));
    answer_of(call(&mut w, "c2", "M1", &offer("10.0.0.4", 7004)));
    drain(&mut w);
    bind(&mut w, 60000, 100);
    bind(&mut w, 60001, 101);
    bind(&mut w, 60002, 102);
    bind(&mut w, 60003, 103);
    let mut sent = packet(&mut w, 100, "10.0.0.1", 7001, b"rtp");
    sent.sort();
    assert_eq!(
        sent,
        vec![
            (101, "10.0.0.2".to_string(), 7002, b"rtp".to_vec()),
            (102, "10.0.0.3".to_string(), 7003, b"rtp".to_vec()),
        ]
    );
}

#[test]
fn a_leg_never_gets_its_own_packet_back() {
    let mut w = worker(61000, 61010);
    answer_of(call(&mut w, "c1", "L1", &offer("10.0.0.1", 7001)));
    answer_of(call(&mut w, "c1", "L2", &offer("10.0.0.2", 7002)));
    drain(&mut w);
    bind(&mut w, 61000, 1);
    bind(&mut w, 61001, 2);
    let sent = packet(&mut w, 2, "10.0.0.2", 7002, b"x");
    assert_eq!(sent, vec![(1, "10.0.0.1".to_string(), 7001, b"x".to_vec())]);
    // alone in its call, a leg sends nothing
    answer_of(call(&mut w, "solo", "S", &offer("10.0.0.7", 7007)));
    drain(&mut w);
    bind(&mut w, 61002, 3);
    assert!(packet(&mut w, 3, "10.0.0.7", 7007, b"y").is_empty());
}

#[test]
fn packets_before_bind_or_from_strangers_are_dropped() {
    let mut w = worker(62000, 62010);
    answer_of(call(&mut w, "c1", "L1", &offer("10.0.0.1", 7001)));
    answer_of(call(&mut w, "c1", "L2", &offer("10.0.0.2", 7002)));
    drain(&mut w);
    assert!(packet(&mut w, 9, "10.0.0.1", 7001, b"early").is_empty());
    bind(&mut w, 62000, 1);
    bind(&mut w, 62001, 2);
    assert!(packet(&mut w, 9, "192.168.1.1", 1, b"who").is_empty());
}

#[test]
fn failed_bind_is_dropped() {
    let mut w = worker(63000, 63010);
    answer_of(call(&mut w, "c1", "L1", &offer("10.0.0.1", 7001)));
    drain(&mut w);
    let addr = NetAddr::new("0.0.0.0".to_string(), 63000);
    let input = WorkerInput::Net(BackendIncoming::UdpListenResult { bind: addr, result: Err("in use".to_string()) });
    assert!(w.on_event(0, input).is_none());
    assert!(drain(&mut w).is_empty());
}

#[test]
fn end_closes_bound_sockets() {
    let mut w = worker(64000, 64010);
    answer_of(call(&mut w, "c1", "L1", &offer("10.0.0.1", 7001)));
    answer_of(call(&mut w, "c1", "L2", &offer("10.0.0.2", 7002)));
    drain(&mut w);
    bind(&mut w, 64000, 11);
    bind(&mut w, 64001, 12);
    end(&mut w, "c1");
    let mut closed: Vec<usize> = drain(&mut w)
        .into_iter()
        .map(|o| match o {
            WorkerOutput::Net(BackendOutgoing::UdpUnlisten { slot }) => slot,
            other => panic!("unexpected output {other:?}"),
        })
        .collect();
    closed.sort();
    assert_eq!(closed, vec![11, 12]);
    // the legs are gone: their packets go nowhere
    assert!(packet(&mut w, 11, "10.0.0.1", 7001, b"late").is_empty());
}

#[test]
fn commands_through_on_event_are_answered() {
    let mut w = worker(65000, 65002);
    let input = WorkerInput::Ext(ExtInput::Rpc(MediaRpcRequest { id: "q".to_string(), cmd: MediaRpcCmd::Ping }));
    match w.on_event(0, input) {
        Some(WorkerOutput::Ext(ExtOut::Rpc(resp))) => {
            assert_eq!(resp.id, "q");
            assert_eq!(resp.res, MediaRpcResult::Pong);
        },
        other => panic!("unexpected {other:?}"),
    }
}

#[test]
fn tick_drains_queued_effects_first() {
    let mut w = worker(65100, 65102);
    answer_of(call(&mut w, "c1", "L1", &offer("10.0.0.1", 7001)));
    assert!(matches!(w.on_tick(5), Some(WorkerOutput::Net(BackendOutgoing::UdpListen { .. }))));
    assert!(w.on_tick(6).is_none());
}

#[test]
fn offer_with_out_of_range_media_port_is_refused() {
    let mut w = worker(40000, 40002);
    let sdp = "v=0\r\no=Z 0 1 IN IP4 1.1.1.1\r\ns=Z\r\nc=IN IP4 10.0.0.1\r\nt=0 0\r\nm=audio 70000 RTP/AVP 0\r\n";
    match call(&mut w, "c", "L", sdp) {
        MediaRpcResult::Error(reason) => assert!(!reason.is_empty()),
        other => panic!("expected an error, got {other:?}"),
    }
    assert!(drain(&mut w).is_empty());
    answer_of(call(&mut w, "c", "L", &offer("10.0.0.1", 5000)));
    assert_eq!(listened(&drain(&mut w)), vec![40000]);
}

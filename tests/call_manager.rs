use simple_rtp_engine::{
    ng_response_from_call, route_ng_request, CallAction, CallActionResult, CallManager, CallManagerConfig, CallMsg,
    CallResult, NgCmdResult, NgCommand, NgRequest, NgRoute,
};

const OFFER: &str = "v=0\r\no=Z 0 2120575 IN IP4 123.16.85.0\r\ns=Z\r\nc=IN IP4 14.225.211.34\r\nt=0 0\r\nm=audio 23018 RTP/AVP 0\r\na=rtpmap:0 PCMU/8000\r\n";

fn manager(min: isize, max: isize) -> CallManager {
    CallManager::new(CallManagerConfig { addr: "5.6.7.8".to_string(), min_port: min, max_port: max })
}

fn offer(id: &str, call: &str, from: &str, sdp: &str) -> CallMsg {
    CallMsg::NgRequest(
        id.to_string(),
        NgCommand::Offer { sdp: sdp.to_string(), call_id: call.to_string(), from_tag: from.to_string(), ice: None },
    )
}

fn answer(id: &str, call: &str, from: &str, sdp: &str) -> CallMsg {
    CallMsg::NgRequest(
        id.to_string(),
        NgCommand::Answer {
            sdp: sdp.to_string(),
            call_id: call.to_string(),
            from_tag: from.to_string(),
            to_tag: "t".to_string(),
            ice: None,
        },
    )
}

fn delete(id: &str, call: &str) -> CallMsg {
    CallMsg::NgRequest(
        id.to_string(),
        NgCommand::Delete { call_id: call.to_string(), from_tag: "f".to_string(), to_tag: None },
    )
}

fn started_ports(actions: &[CallAction]) -> Vec<(isize, isize)> {
    actions
        .iter()
        .filter_map(|a| match a {
            CallAction::StartLeg(_, leg) => Some((leg.rtp_port, leg.rtcp_port)),
            _ => None,
        })
        .collect()
}

#[test]
fn offer_takes_two_ports_from_the_back() {
    let mut m = manager(30000, 30004);
    let (res, actions) = m.process(offer("1", "c", "a", OFFER));
    match res {
        Some(CallActionResult::Success(CallResult::Offer(id, sdp))) => {
            assert_eq!(id, "1");
            assert!(sdp.contains("m=audio 30004 RTP/AVP"), "{sdp}");
            assert!(sdp.contains("a=rtcp:30003"), "{sdp}");
            assert!(sdp.contains("c=IN IP4 5.6.7.8"), "{sdp}");
        },
        other => panic!("unexpected {other:?}"),
    }
    assert_eq!(started_ports(&actions), vec![(30004, 30003)]);
}

#[test]
fn offer_needs_four_free_ports() {
    let mut m = manager(30000, 30002);
    let (res, actions) = m.process(offer("1", "c", "a", OFFER));
    assert_eq!(res, Some(CallActionResult::Error("1".to_string(), "Not enough port".to_string())));
    assert!(actions.is_empty());
}

#[test]
fn answer_adds_a_leg_to_an_existing_call() {
    let mut m = manager(30000, 30005);
    m.process(offer("1", "c", "a", OFFER));
    let (res, actions) = m.process(answer("2", "c", "b", OFFER));
    assert!(matches!(res, Some(CallActionResult::Success(CallResult::Answer(ref id, _))) if id == "2"));
    assert_eq!(started_ports(&actions), vec![(30003, 30002)]);
    let (res, _) = m.process(answer("3", "nope", "b", OFFER));
    assert_eq!(res, Some(CallActionResult::Error("3".to_string(), "Call not found".to_string())));
}

#[test]
fn bad_description_is_refused_with_its_reason() {
    let mut m = manager(30000, 30005);
    let (res, actions) = m.process(offer("1", "c", "a", "garbage"));
    assert!(matches!(res, Some(CallActionResult::Error(ref id, ref reason)) if id == "1" && !reason.is_empty()));
    assert!(actions.is_empty());
}

#[test]
fn delete_returns_the_ports_and_forgets_the_call() {
    let mut m = manager(30000, 30003);
    m.process(offer("1", "c", "a", OFFER));
    let (res, actions) = m.process(delete("2", "c"));
    assert_eq!(res, Some(CallActionResult::Success(CallResult::Delete("2".to_string()))));
    match &actions[..] {
        [CallAction::StopCall(call, legs)] => {
            assert_eq!(call, "c");
            assert_eq!(legs.len(), 1);
        },
        other => panic!("unexpected {other:?}"),
    }
    // the ports are back: a new offer fits again
    let (res, _) = m.process(offer("3", "d", "a", OFFER));
    assert!(matches!(res, Some(CallActionResult::Success(CallResult::Offer(_, _)))));
    // deleting an unknown call answers nothing
    let (res, actions) = m.process(delete("4", "c"));
    assert!(res.is_none());
    assert!(actions.is_empty());
}

#[test]
fn ping_is_not_handled_here() {
    let mut m = manager(30000, 30003);
    let (res, actions) = m.process(CallMsg::NgRequest("1".to_string(), NgCommand::Ping {}));
    assert!(res.is_none());
    assert!(actions.is_empty());
}

#[test]
fn ping_is_answered_by_the_router_and_the_rest_forwarded() {
    match route_ng_request(NgRequest { id: "7".to_string(), command: NgCommand::Ping {} }) {
        NgRoute::Reply(res) => {
            assert_eq!(res.id, "7");
            assert_eq!(res.result, NgCmdResult::Pong { result: "pong".to_string(), error_reason: None });
        },
        other => panic!("unexpected {other:?}"),
    }
    let del = NgCommand::Delete { call_id: "c".to_string(), from_tag: "f".to_string(), to_tag: None };
    match route_ng_request(NgRequest { id: "8".to_string(), command: del.clone() }) {
        NgRoute::Forward(CallMsg::NgRequest(id, cmd)) => {
            assert_eq!(id, "8");
            assert_eq!(cmd, del);
        },
        other => panic!("unexpected {other:?}"),
    }
}

#[test]
fn call_results_map_to_responses() {
    let r = ng_response_from_call(CallActionResult::Success(CallResult::Answer("a".to_string(), "v=0".to_string())));
    assert_eq!(r.id, "a");
    assert_eq!(r.result, NgCmdResult::Answer { result: "ok".to_string(), error_reason: None, sdp: Some("v=0".to_string()) });
    let r = ng_response_from_call(CallActionResult::Success(CallResult::Offer("b".to_string(), "v=0".to_string())));
    assert_eq!(r.result, NgCmdResult::Offer { result: "ok".to_string(), error_reason: None, sdp: Some("v=0".to_string()) });
    let r = ng_response_from_call(CallActionResult::Success(CallResult::Delete("c".to_string())));
    assert_eq!(r.result, NgCmdResult::Delete { result: "ok".to_string(), error_reason: None });
    let r = ng_response_from_call(CallActionResult::Error("d".to_string(), "Call not found".to_string()));
    assert_eq!(r.id, "d");
    assert_eq!(
        r.result,
        NgCmdResult::Pong { result: "error".to_string(), error_reason: Some("Call not found".to_string()) }
    );
}

use simple_rtp_engine::{
    ng_response_from_rpc, rpc_request_from_ng, MediaRpcCmd, MediaRpcResponse, MediaRpcResult, NgCmdResult,
    NgCommand, NgRequest,
};

#[test]
fn ping_command() {
    let actual = NgCommand::Ping {};
    let expect: NgCommand = NgCommand::from_str("d7:command4:pinge").unwrap();

    assert_eq!(expect, actual);
}

#[test]
fn offer_command() {
    let input = "d7:call-id24:bvmWdxbe4hkHHHvCl_d-nQ..7:command5:offer8:from-tag8:460d801e3:sdp3:v=0e";
    let actual = NgCommand::Offer {
        sdp: "v=0".to_string(),
        call_id: "bvmWdxbe4hkHHHvCl_d-nQ..".to_string(),
        from_tag: "460d801e".to_string(),
        ice: None,
    };
    let expect: NgCommand = NgCommand::from_str(input).unwrap();
    assert_eq!(expect, actual);
}

#[test]
fn answer_command_with_ice() {
    let input = "d3:ICE6:remove7:call-id2:c17:command6:answer8:from-tag1:a3:sdp3:v=06:to-tag1:be";
    let expect = NgCommand::Answer {
        sdp: "v=0".to_string(),
        call_id: "c1".to_string(),
        from_tag: "a".to_string(),
        to_tag: "b".to_string(),
        ice: Some("remove".to_string()),
    };
    assert_eq!(NgCommand::from_str(input), Some(expect));
}

#[test]
fn delete_command_without_to_tag() {
    let input = "d7:call-id2:c17:command6:delete8:from-tag1:ae";
    let expect = NgCommand::Delete { call_id: "c1".to_string(), from_tag: "a".to_string(), to_tag: None };
    assert_eq!(NgCommand::from_str(input), Some(expect));
}

#[test]
fn offer_without_sdp_is_refused() {
    let input = "d7:call-id2:c17:command5:offer8:from-tag1:ae";
    assert_eq!(NgCommand::from_str(input), None);
}

#[test]
fn unknown_command_is_refused() {
    assert_eq!(NgCommand::from_str("d7:command4:quite"), None);
}

#[test]
fn non_dictionary_is_refused() {
    assert_eq!(NgCommand::from_str("i42e"), None);
    assert_eq!(NgCommand::from_str("not bencode"), None);
}

#[test]
fn integer_field_is_refused() {
    assert_eq!(NgCommand::from_str("d7:call-idi5e7:command6:delete8:from-tag1:ae"), None);
}

#[test]
fn request_splits_at_first_space() {
    let req = NgRequest::from_str("5323_1 d7:command4:pinge").unwrap();
    assert_eq!(req.id, "5323_1");
    assert_eq!(req.command, NgCommand::Ping {});
}

#[test]
fn request_without_space_is_refused() {
    assert!(NgRequest::from_str("d7:command4:pinge").is_none());
}

#[test]
fn request_with_bad_command_is_refused() {
    assert!(NgRequest::from_str("id1 d7:command4:quite").is_none());
}

#[test]
fn offer_maps_to_call_with_from_tag() {
    let req = NgRequest {
        id: "t1".to_string(),
        command: NgCommand::Offer {
            sdp: "v=0".to_string(),
            call_id: "c1".to_string(),
            from_tag: "f".to_string(),
            ice: None,
        },
    };
    let rpc = rpc_request_from_ng(req);
    assert_eq!(rpc.id, "t1");
    assert_eq!(rpc.cmd, MediaRpcCmd::Call("c1".to_string(), "f".to_string(), "v=0".to_string()));
}

#[test]
fn answer_maps_to_call_with_to_tag() {
    let req = NgRequest {
        id: "t2".to_string(),
        command: NgCommand::Answer {
            sdp: "v=0".to_string(),
            call_id: "c1".to_string(),
            from_tag: "f".to_string(),
            to_tag: "t".to_string(),
            ice: None,
        },
    };
    assert_eq!(
        rpc_request_from_ng(req).cmd,
        MediaRpcCmd::Call("c1".to_string(), "t".to_string(), "v=0".to_string())
    );
}

#[test]
fn delete_and_ping_map_to_end_and_ping() {
    let del = NgRequest {
        id: "t3".to_string(),
        command: NgCommand::Delete { call_id: "c1".to_string(), from_tag: "f".to_string(), to_tag: None },
    };
    assert_eq!(rpc_request_from_ng(del).cmd, MediaRpcCmd::End("c1".to_string()));
    let ping = NgRequest { id: "t4".to_string(), command: NgCommand::Ping {} };
    assert_eq!(rpc_request_from_ng(ping).cmd, MediaRpcCmd::Ping);
}

#[test]
fn responses_map_to_results() {
    let pong = ng_response_from_rpc(MediaRpcResponse { id: "a".to_string(), res: MediaRpcResult::Pong });
    assert_eq!(pong.id, "a");
    assert_eq!(pong.result, NgCmdResult::Pong { result: "pong".to_string(), error_reason: None });
    let call = ng_response_from_rpc(MediaRpcResponse { id: "b".to_string(), res: MediaRpcResult::Call("v=0".to_string()) });
    assert_eq!(
        call.result,
        NgCmdResult::Offer { result: "ok".to_string(), error_reason: None, sdp: Some("v=0".to_string()) }
    );
    let end = ng_response_from_rpc(MediaRpcResponse { id: "c".to_string(), res: MediaRpcResult::End });
    assert_eq!(end.result, NgCmdResult::Delete { result: "ok".to_string(), error_reason: None });
    let err = ng_response_from_rpc(MediaRpcResponse {
        id: "d".to_string(),
        res: MediaRpcResult::Error("No available port".to_string()),
    });
    assert_eq!(
        err.result,
        NgCmdResult::Pong { result: "error".to_string(), error_reason: Some("No available port".to_string()) }
    );
}

#[test]
fn unknown_command_gets_an_error_reply() {
    let reply = NgRequest::unknown_command_reply("abc d7:command4:quite").unwrap();
    assert_eq!(reply.id, "abc");
    assert_eq!(
        reply.result,
        NgCmdResult::Pong { result: "error".to_string(), error_reason: Some("UNKNOW_COMMAND".to_string()) }
    );
    assert!(NgRequest::unknown_command_reply("abc d7:command4:pinge").is_none());
    assert!(NgRequest::unknown_command_reply("no-space").is_none());
}

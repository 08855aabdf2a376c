use std::collections::VecDeque;

use vstd::prelude::*;

use crate::legs::CallLeg;
use crate::ng::{NgCmdResult, NgCommand, NgRequest, NgResponse};
use crate::session::{answer_text, generate_sdp, offer_fields, offer_origin, read_offer, SdpConfig, SdpOrigin};

verus! {

/// A request for the call manager: a control transaction id and its command.
#[derive(Debug)]
pub enum CallMsg {
    NgRequest(String, NgCommand),
}

/// The outcome of a handled request, with its transaction id.
#[derive(Debug, PartialEq, Eq)]
pub enum CallResult {
    /// id, answer
    Offer(String, String),
    /// id, answer
    Answer(String, String),
    /// id
    Delete(String),
}

#[derive(Debug, PartialEq, Eq)]
pub enum CallActionResult {
    Success(CallResult),
    /// id, reason
    Error(String, String),
}

/// What moves between the control side and the call manager.
#[derive(Debug)]
pub enum MainEvent {
    CallAction(CallMsg),
    ActionResult(CallActionResult),
}

/// Where the call manager answers from, and its ports `min_port..=max_port`.
#[derive(Debug, Clone)]
pub struct CallManagerConfig {
    pub addr: String,
    pub min_port: isize,
    pub max_port: isize,
}

/// Work for the runtime: start a leg's media task in a call, or stop all
/// tasks of an ended call.
#[derive(Debug)]
pub enum CallAction {
    StartLeg(String, CallLeg),
    StopCall(String, Vec<CallLeg>),
}

/// The error for a request that needs more free ports than there are.
pub open spec fn not_enough_port_text() -> Seq<char> {
    "Not enough port"@
}

/// The error for an answer to a call that does not exist.
pub open spec fn call_not_found_text() -> Seq<char> {
    "Call not found"@
}

/// The ports `min..=max`, in increasing order.
pub open spec fn port_span(min: isize, max: isize) -> Seq<isize> {
    if min <= max {
        Seq::new((max - min + 1) as nat, |i: int| (min + i) as isize)
    } else {
        Seq::empty()
    }
}

/// The ports a call's legs give back, in the order they end up at the
/// front of the queue: each leg's RTP port, then its RTCP port, pushed to
/// the front one after the other.
pub open spec fn released(legs: Seq<CallLeg>) -> Seq<isize>
    decreases legs.len(),
{
    if legs.len() == 0 {
        Seq::empty()
    } else {
        seq![legs.last().rtcp_port, legs.last().rtp_port] + released(legs.drop_last())
    }
}

/// The call manager's decisions: it keeps the free ports and the legs of
/// each call, and answers offers, answers and deletes. An offer starts a
/// call with one leg and needs four free ports; an answer adds a leg to a
/// call and needs two; each leg takes two ports from the back of the queue,
/// for RTP and RTCP. A delete ends a call and puts its ports back in front.
pub struct CallManager {
    cfg: CallManagerConfig,
    port_queue: VecDeque<isize>,
    calls: Vec<(String, Vec<CallLeg>)>,
}

impl CallManager {
    pub closed spec fn ports(&self) -> Seq<isize> {
        self.port_queue@
    }

    /// The ids of the calls, in order of creation.
    pub closed spec fn call_ids(&self) -> Seq<Seq<char>> {
        self.calls@.map_values(|c: (String, Vec<CallLeg>)| c.0@)
    }

    /// The legs of the call at position `i`.
    pub closed spec fn legs_at(&self, i: int) -> Seq<CallLeg> {
        self.calls@[i].1@
    }

    pub closed spec fn addr(&self) -> Seq<char> {
        self.cfg.addr@
    }

    /// No two calls share an id.
    pub open spec fn wf(&self) -> bool {
        forall|a: int, b: int|
            0 <= a < b < self.call_ids().len() ==> #[trigger] self.call_ids()[a] != #[trigger] self.call_ids()[b]
    }

    pub fn new(cfg: CallManagerConfig) -> (r: CallManager)
        requires
            cfg.max_port < isize::MAX,
        ensures
            r.wf(),
            r.ports() == port_span(cfg.min_port, cfg.max_port),
            r.call_ids().len() == 0,
            r.addr() == cfg.addr@,
    {
        let mut port_queue: VecDeque<isize> = VecDeque::new();
        let mut i: isize = cfg.min_port;
        while i <= cfg.max_port
            invariant
                cfg.max_port < isize::MAX,
                cfg.min_port <= i <= cfg.max_port + 1 || (i == cfg.min_port && cfg.min_port > cfg.max_port),
                cfg.min_port <= i ==> port_queue@ == Seq::new((i - cfg.min_port) as nat, |j: int| (cfg.min_port + j) as isize),
            decreases cfg.max_port + 1 - i,
        {
            port_queue.push_back(i);
            assert(port_queue@ =~= Seq::new((i + 1 - cfg.min_port) as nat, |j: int| (cfg.min_port + j) as isize));
            i = i + 1;
        }
        assert(port_queue@ =~= port_span(cfg.min_port, cfg.max_port));
        let r = CallManager { cfg, port_queue, calls: Vec::new() };
        assert(r.call_ids() =~= Seq::<Seq<char>>::empty());
        r
    }

    /// The position of the call `call_id`, if there is one.
    fn find_call(&self, call_id: &String) -> (r: Option<usize>)
        ensures
            match r {
                Some(i) => i < self.call_ids().len() && self.call_ids()[i as int] == call_id@,
                None => !self.call_ids().contains(call_id@),
            },
    {
        let mut i: usize = 0;
        while i < self.calls.len()
            invariant
                i <= self.calls@.len(),
                forall|j: int| 0 <= j < i ==> #[trigger] self.calls@[j].0@ != call_id@,
            decreases self.calls@.len() - i,
        {
            if self.calls[i].0 == *call_id {
                return Some(i);
            }
            i = i + 1;
        }
        proof {
            if self.call_ids().contains(call_id@) {
                let k = choose|k: int| 0 <= k < self.call_ids().len() && self.call_ids()[k] == call_id@;
                assert(self.calls@[k].0@ == call_id@);
            }
        }
        None
    }

    fn error(id: String, reason: &str) -> (r: CallActionResult)
        ensures
            r matches CallActionResult::Error(i, e) && i == id && e@ == reason@,
    {
        CallActionResult::Error(id, String::from_str(reason))
    }

    /// Takes a leg's two ports from the back of the queue and writes its answer.
    fn new_leg(&mut self, id: String, remote_sdp: String, origin: SdpOrigin) -> (r: CallLeg)
        requires
            old(self).ports().len() >= 2,
        ensures
            final(self).ports() == old(self).ports().take(old(self).ports().len() - 2),
            r.rtp_port == old(self).ports().last(),
            r.rtcp_port == old(self).ports()[old(self).ports().len() - 2],
            r.id == id,
            r.remote_sdp == remote_sdp,
            r.local_sdp@ == answer_text(origin@, old(self).addr(), r.rtp_port as int, r.rtcp_port as int),
            final(self).calls == old(self).calls,
            final(self).cfg == old(self).cfg,
    {
        let ghost q = self.port_queue@;
        let rtp_port = match self.port_queue.pop_back() {
            Some(p) => p,
            None => 0,
        };
        let rtcp_port = match self.port_queue.pop_back() {
            Some(p) => p,
            None => 0,
        };
        assert(self.port_queue@ =~= q.take(q.len() - 2));
        let local_sdp = generate_sdp(SdpConfig { addr: self.cfg.addr.clone(), rtcp_port, rtp_port, origin });
        CallLeg::new(id, remote_sdp, local_sdp, rtp_port, rtcp_port)
    }

    /// Puts the ports of `legs` back at the front of the queue.
    fn release_legs(&mut self, legs: &Vec<CallLeg>)
        ensures
            final(self).ports() == released(legs@) + old(self).ports(),
            final(self).calls == old(self).calls,
            final(self).cfg == old(self).cfg,
    {
        let ghost q = self.port_queue@;
        let mut i: usize = 0;
        while i < legs.len()
            invariant
                i <= legs@.len(),
                self.port_queue@ == released(legs@.take(i as int)) + q,
                self.calls == old(self).calls,
                self.cfg == old(self).cfg,
            decreases legs@.len() - i,
        {
            self.port_queue.push_front(legs[i].rtp_port);
            self.port_queue.push_front(legs[i].rtcp_port);
            proof {
                assert(legs@.take(i + 1).drop_last() == legs@.take(i as int));
                assert(legs@.take(i + 1).last() == legs@[i as int]);
                assert(self.port_queue@ =~= released(legs@.take(i + 1)) + q);
            }
            i = i + 1;
        }
        assert(legs@.take(legs@.len() as int) == legs@);
    }

    /// Removes the call at position `i` and frees its ports.
    fn end_call(&mut self, i: usize) -> (r: (String, Vec<CallLeg>))
        requires
            i < old(self).call_ids().len(),
        ensures
            r.0@ == old(self).call_ids()[i as int],
            r.1@ == old(self).legs_at(i as int),
            final(self).ports() == released(r.1@) + old(self).ports(),
            final(self).call_ids() == old(self).call_ids().remove(i as int),
            final(self).cfg == old(self).cfg,
    {
        let call = self.calls.remove(i);
        self.release_legs(&call.1);
        assert(self.call_ids() =~= old(self).call_ids().remove(i as int));
        call
    }

    /// Handles one request; returns the result to send back, if any, and
    /// the work for the runtime.
    /// - An offer whose description cannot be read, or that finds fewer than
    ///   four free ports, is refused and changes nothing. Otherwise a call
    ///   with one leg starts (ending first a call of the same id).
    /// - An answer to an unknown call, whose description cannot be read, or
    ///   that finds fewer than two free ports, is refused and changes
    ///   nothing. Otherwise a leg joins the call.
    /// - A delete ends the call; for an unknown call nothing happens and
    ///   nothing is answered.
    /// - A ping is not the call manager's: nothing happens.
    pub fn process(&mut self, msg: CallMsg) -> (r: (Option<CallActionResult>, Vec<CallAction>))
        requires
            old(self).wf(),
        ensures
            final(self).wf(),
            final(self).addr() == old(self).addr(),
            match msg {
                CallMsg::NgRequest(id, NgCommand::Offer { sdp, call_id, from_tag, .. }) => {
                    if offer_fields(sdp@) is Err || old(self).ports().len() < 4 {
                        &&& r.0 matches Some(CallActionResult::Error(i, reason)) && i == id && (
                        offer_fields(sdp@) is Err ==> reason@ == offer_fields(sdp@)->Err_0) && (offer_fields(
                            sdp@,
                        ) is Ok ==> reason@ == not_enough_port_text())
                        &&& r.1@.len() == 0
                        &&& final(self).ports() == old(self).ports()
                        &&& final(self).call_ids() == old(self).call_ids()
                    } else {
                        let q = old(self).ports();
                        &&& r.0 matches Some(CallActionResult::Success(CallResult::Offer(i, answer))) && i == id && answer@ == answer_text(offer_origin(sdp@), old(self).addr(), q.last() as int, q[q.len() - 2] as int)
                        &&& final(self).call_ids().last() == call_id@
                        &&& final(self).legs_at(final(self).call_ids().len() - 1).len() == 1
                        &&& r.1@.last() matches CallAction::StartLeg(c, leg) && c == call_id && leg
                            == final(self).legs_at(final(self).call_ids().len() - 1)[0] && leg.id == from_tag
                            && leg.remote_sdp == sdp && leg.rtp_port == q.last() && leg.rtcp_port == q[q.len() - 2]
                            && leg.local_sdp@ == answer_text(
                            offer_origin(sdp@),
                            old(self).addr(),
                            q.last() as int,
                            q[q.len() - 2] as int,
                        )
                        &&& !old(self).call_ids().contains(call_id@) ==> {
                            &&& final(self).ports() == q.take(q.len() - 2)
                            &&& final(self).call_ids() == old(self).call_ids().push(call_id@)
                            &&& r.1@.len() == 1
                        }
                    }
                },
                CallMsg::NgRequest(id, NgCommand::Answer { sdp, call_id, from_tag, .. }) => {
                    if !old(self).call_ids().contains(call_id@) {
                        &&& r.0 matches Some(CallActionResult::Error(i, reason)) && i == id && reason@
                            == call_not_found_text()
                        &&& r.1@.len() == 0
                        &&& final(self).ports() == old(self).ports()
                        &&& final(self).call_ids() == old(self).call_ids()
                    } else if offer_fields(sdp@) is Err || old(self).ports().len() < 2 {
                        &&& r.0 matches Some(CallActionResult::Error(i, reason)) && i == id && (
                        offer_fields(sdp@) is Err ==> reason@ == offer_fields(sdp@)->Err_0) && (offer_fields(
                            sdp@,
                        ) is Ok ==> reason@ == not_enough_port_text())
                        &&& r.1@.len() == 0
                        &&& final(self).ports() == old(self).ports()
                        &&& final(self).call_ids() == old(self).call_ids()
                    } else {
                        let q = old(self).ports();
                        &&& r.0 matches Some(CallActionResult::Success(CallResult::Answer(i, answer))) && i == id && answer@ == answer_text(offer_origin(sdp@), old(self).addr(), q.last() as int, q[q.len() - 2] as int)
                        &&& final(self).ports() == q.take(q.len() - 2)
                        &&& final(self).call_ids() == old(self).call_ids()
                        &&& r.1@.len() == 1
                        &&& r.1@[0] matches CallAction::StartLeg(c, leg) && c == call_id && leg.id == from_tag
                            && leg.remote_sdp == sdp && leg.rtp_port == q.last() && leg.rtcp_port == q[q.len() - 2]
                            && leg.local_sdp@ == answer_text(
                            offer_origin(sdp@),
                            old(self).addr(),
                            q.last() as int,
                            q[q.len() - 2] as int,
                        )
                    }
                },
                CallMsg::NgRequest(id, NgCommand::Delete { call_id, .. }) => {
                    if !old(self).call_ids().contains(call_id@) {
                        &&& r.0 is None
                        &&& r.1@.len() == 0
                        &&& final(self).ports() == old(self).ports()
                        &&& final(self).call_ids() == old(self).call_ids()
                    } else {
                        &&& r.0 == Some(CallActionResult::Success(CallResult::Delete(id)))
                        &&& r.1@.len() == 1
                        &&& r.1@[0] matches CallAction::StopCall(c, legs) && c@ == call_id@ && final(self).ports()
                            == released(legs@) + old(self).ports()
                        &&& !final(self).call_ids().contains(call_id@)
                    }
                },
                CallMsg::NgRequest(_, NgCommand::Ping {  }) => {
                    &&& r.0 is None
                    &&& r.1@.len() == 0
                    &&& final(self).ports() == old(self).ports()
                    &&& final(self).call_ids() == old(self).call_ids()
                },
            },
    {
        let mut actions: Vec<CallAction> = Vec::new();
        match msg {
            CallMsg::NgRequest(id, NgCommand::Offer { sdp, call_id, from_tag, .. }) => {
                let offer = match read_offer(sdp.as_str()) {
                    Ok(o) => o,
                    Err(e) => return (Some(CallActionResult::Error(id, e)), actions),
                };
                if self.port_queue.len() < 4 {
                    return (Some(Self::error(id, "Not enough port")), actions);
                }
                let ghost q = self.port_queue@;
                if let Some(i) = self.find_call(&call_id) {
                    let ended = self.end_call(i);
                    actions.push(CallAction::StopCall(ended.0, ended.1));
                }
                let ghost q1 = self.port_queue@;
                proof {
                    assert(q1.len() >= q.len());
                    assert(q1.last() == q.last());
                    assert(q1[q1.len() - 2] == q[q.len() - 2]);
                }
                let leg = self.new_leg(from_tag, sdp, offer.origin);
                let answer = leg.local_sdp.clone();
                let mut legs: Vec<CallLeg> = Vec::new();
                legs.push(leg.duplicate());
                let ghost ids = self.call_ids();
                let ghost n_actions = actions@.len();
                self.calls.push((call_id.clone(), legs));
                actions.push(CallAction::StartLeg(call_id, leg));
                proof {
                    assert(self.call_ids() =~= ids.push(call_id@));
                    assert(!ids.contains(call_id@)) by {
                        if ids.contains(call_id@) {
                            let k = choose|k: int| 0 <= k < ids.len() && ids[k] == call_id@;
                            if old(self).call_ids().contains(call_id@) {
                                let j = choose|j: int| 0 <= j < old(self).call_ids().len() && old(self).call_ids()[j] == call_id@;
                                assert(ids == old(self).call_ids().remove(j) || ids == old(self).call_ids());
                            }
                        }
                    }
                    assert forall|a: int, b: int| 0 <= a < b < self.call_ids().len() implies #[trigger] self.call_ids()[a]
                        != #[trigger] self.call_ids()[b] by {
                        if b < ids.len() {
                            assert(ids[a] == self.call_ids()[a] && ids[b] == self.call_ids()[b]);
                        } else {
                            assert(ids[a] == self.call_ids()[a]);
                        }
                    }
                    assert(self.legs_at(self.call_ids().len() - 1) =~= seq![leg]);
                    if !old(self).call_ids().contains(call_id@) {
                        assert(q1 == q);
                        assert(ids == old(self).call_ids());
                        assert(n_actions == 0);
                    }
                }
                (Some(CallActionResult::Success(CallResult::Offer(id, answer))), actions)
            },
            CallMsg::NgRequest(id, NgCommand::Answer { sdp, call_id, from_tag, .. }) => {
                let i = match self.find_call(&call_id) {
                    Some(i) => i,
                    None => return (Some(Self::error(id, "Call not found")), actions),
                };
                let offer = match read_offer(sdp.as_str()) {
                    Ok(o) => o,
                    Err(e) => return (Some(CallActionResult::Error(id, e)), actions),
                };
                if self.port_queue.len() < 2 {
                    return (Some(Self::error(id, "Not enough port")), actions);
                }
                let leg = self.new_leg(from_tag, sdp, offer.origin);
                let answer = leg.local_sdp.clone();
                let ghost before = self.call_ids();
                let mut call = self.calls.remove(i);
                call.1.push(leg.duplicate());
                self.calls.insert(i, call);
                proof {
                    assert(self.call_ids() =~= before);
                }
                actions.push(CallAction::StartLeg(call_id, leg));
                (Some(CallActionResult::Success(CallResult::Answer(id, answer))), actions)
            },
            CallMsg::NgRequest(id, NgCommand::Delete { call_id, .. }) => {
                match self.find_call(&call_id) {
                    Some(i) => {
                        let ghost ids = self.call_ids();
                        let ended = self.end_call(i);
                        proof {
                            if self.call_ids().contains(call_id@) {
                                let k = choose|k: int| 0 <= k < self.call_ids().len() && self.call_ids()[k] == call_id@;
                                let k2 = if k < i { k } else { k + 1 };
                                assert(ids[k2] == call_id@);
                            }
                        }
                        actions.push(CallAction::StopCall(ended.0, ended.1));
                        (Some(CallActionResult::Success(CallResult::Delete(id))), actions)
                    },
                    None => (None, actions),
                }
            },
            CallMsg::NgRequest(_, NgCommand::Ping {  }) => (None, actions),
        }
    }
}

/// What the call-control side does with a request: answer it at once, or
/// hand it to the call manager.
#[derive(Debug)]
pub enum NgRoute {
    Reply(NgResponse),
    Forward(CallMsg),
}

/// A ping is answered with `pong` at once; offers, answers and deletes go to
/// the call manager.
pub fn route_ng_request(packet: NgRequest) -> (r: NgRoute)
    ensures
        match packet.command {
            NgCommand::Ping {  } => r matches NgRoute::Reply(res) && res.id == packet.id && (
            res.result matches NgCmdResult::Pong { result, error_reason } && result@ == "pong"@ && error_reason is None),
            _ => r == NgRoute::Forward(CallMsg::NgRequest(packet.id, packet.command)),
        },
{
    match packet.command {
        NgCommand::Ping {  } => NgRoute::Reply(
            NgResponse {
                id: packet.id,
                result: NgCmdResult::Pong { result: String::from_str("pong"), error_reason: None },
            },
        ),
        command => NgRoute::Forward(CallMsg::NgRequest(packet.id, command)),
    }
}

/// The call-control response for a call manager result: `ok` with the
/// answer for an offer or an answer, `ok` for a delete, and `error` with the
/// reason otherwise.
pub fn ng_response_from_call(result: CallActionResult) -> (r: NgResponse)
    ensures
        match result {
            CallActionResult::Success(CallResult::Offer(id, sdp)) => r.id == id && (r.result matches NgCmdResult::Offer {
                result,
                error_reason,
                sdp: s,
            } && result@ == "ok"@ && error_reason is None && s == Some(sdp)),
            CallActionResult::Success(CallResult::Answer(id, sdp)) => r.id == id && (r.result matches NgCmdResult::Answer {
                result,
                error_reason,
                sdp: s,
            } && result@ == "ok"@ && error_reason is None && s == Some(sdp)),
            CallActionResult::Success(CallResult::Delete(id)) => r.id == id && (r.result matches NgCmdResult::Delete {
                result,
                error_reason,
            } && result@ == "ok"@ && error_reason is None),
            CallActionResult::Error(id, reason) => r.id == id && (r.result matches NgCmdResult::Pong {
                result,
                error_reason,
            } && result@ == "error"@ && error_reason == Some(reason)),
        },
{
    match result {
        CallActionResult::Success(CallResult::Offer(id, sdp)) => NgResponse {
            id,
            result: NgCmdResult::Offer { result: String::from_str("ok"), error_reason: None, sdp: Some(sdp) },
        },
        CallActionResult::Success(CallResult::Answer(id, sdp)) => NgResponse {
            id,
            result: NgCmdResult::Answer { result: String::from_str("ok"), error_reason: None, sdp: Some(sdp) },
        },
        CallActionResult::Success(CallResult::Delete(id)) => NgResponse {
            id,
            result: NgCmdResult::Delete { result: String::from_str("ok"), error_reason: None },
        },
        CallActionResult::Error(id, reason) => NgResponse {
            id,
            result: NgCmdResult::Pong { result: String::from_str("error"), error_reason: Some(reason) },
        },
    }
}

} // verus!

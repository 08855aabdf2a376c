use sans_io_runtime::collections::DynamicDeque;
use vstd::prelude::*;

use crate::addr::NetAddr;
use crate::ids::ChannelId;
use crate::session::{answer_text, get_sdp, offer_address, offer_origin};

verus! {

/// sans-io-runtime's `DynamicDeque`: a FIFO queue kept on a fixed-size stack
/// part first and a heap part after that.
#[verifier::external_type_specification]
#[verifier::external_body]
#[verifier::reject_recursive_types(T)]
pub struct ExDynamicDeque<T, const STACK_SIZE: usize>(DynamicDeque<T, STACK_SIZE>);

/// What a task's output queue holds, front first.
pub uninterp spec fn queued(q: DynamicDeque<RtpOutput, 16>) -> Seq<RtpOutput>;

/// Relies on `DynamicDeque::default`: both of its parts start empty.
#[verifier::external_body]
fn new_queue() -> (q: DynamicDeque<RtpOutput, 16>)
    ensures
        queued(q) == Seq::<RtpOutput>::empty(),
{
    DynamicDeque::default()
}

/// Relies on `DynamicDeque::push_back`: the value goes to the back, on the
/// stack part while it has room and on the heap part after that.
#[verifier::external_body]
fn enqueue(q: &mut DynamicDeque<RtpOutput, 16>, value: RtpOutput)
    ensures
        queued(*final(q)) == queued(*old(q)).push(value),
{
    q.push_back(value)
}

/// Relies on `DynamicDeque::pop_front`: the front of the stack part leaves,
/// and the front of the heap part moves to the back of the stack part.
#[verifier::external_body]
fn dequeue(q: &mut DynamicDeque<RtpOutput, 16>) -> (r: Option<RtpOutput>)
    ensures
        queued(*old(q)).len() == 0 ==> r is None && queued(*final(q)) == queued(*old(q)),
        queued(*old(q)).len() > 0 ==> r == Some(queued(*old(q))[0]) && queued(*final(q))
            == queued(*old(q)).drop_first(),
{
    q.pop_front()
}

/// The most effects a task keeps waiting.
pub const QUEUE_CAPACITY: usize = 16;

/// A payload published on a call's channel by one of its legs.
#[derive(Debug)]
pub struct RtpForwardPacket {
    pub from: u64,
    pub data: Vec<u8>,
}

/// A task's request to the call's channel.
#[derive(Debug)]
pub enum BusChannelControl {
    Subscribe(ChannelId),
    /// channel, whether the publisher is left out, packet
    Publish(ChannelId, bool, RtpForwardPacket),
}

/// An event delivered to a task.
#[derive(Debug)]
pub enum RtpInput {
    /// a payload that arrived on the leg's socket
    UdpPacket { data: Vec<u8> },
    /// a payload published on the call's channel by leg `from`
    Bus { from: u64, data: Vec<u8> },
}

/// An effect a task asks for.
#[derive(Debug)]
pub enum RtpOutput {
    /// send `data` from the leg's socket to `to`
    Forward { to: NetAddr, data: Vec<u8> },
    Bus(BusChannelControl),
    /// the task is gone; its port is free again
    Destroy(usize),
}

/// The life of a leg's task.
#[derive(Debug, Clone, Copy, PartialEq, Eq, Structural)]
pub enum RtpState {
    /// created, socket bind requested
    Pending,
    /// bind confirmed, subscribed to the call's channel
    Active,
    /// shut down; every further input is ignored
    Destroyed,
}

/// The relay state machine of one call leg.
pub struct RtpTask {
    addr: NetAddr,
    call_id: u64,
    leg_id: u64,
    rtp_port: usize,
    timeout: Option<u64>,
    state: RtpState,
    output: DynamicDeque<RtpOutput, 16>,
}

/// The first effect of `q` followed by `extra`, and what stays queued.
pub open spec fn drained(q: Seq<RtpOutput>, extra: Seq<RtpOutput>) -> (Option<RtpOutput>, Seq<RtpOutput>) {
    let all = q + extra;
    if all.len() == 0 {
        (None, all)
    } else {
        (Some(all[0]), all.drop_first())
    }
}

impl RtpTask {
    pub open spec fn remote(&self) -> (Seq<char>, u16) {
        self.remote_net()@
    }

    /// The address the leg's media is sent to.
    pub closed spec fn remote_net(&self) -> NetAddr {
        self.addr
    }

    pub closed spec fn call_key(&self) -> u64 {
        self.call_id
    }

    pub closed spec fn leg_key(&self) -> u64 {
        self.leg_id
    }

    pub closed spec fn port(&self) -> usize {
        self.rtp_port
    }

    pub closed spec fn deadline(&self) -> Option<u64> {
        self.timeout
    }

    pub closed spec fn state(&self) -> RtpState {
        self.state
    }

    /// The effects waiting to be drained, front first.
    pub closed spec fn pending(&self) -> Seq<RtpOutput> {
        queued(self.output)
    }

    /// The output queue has room for one more effect.
    pub open spec fn wf(&self) -> bool {
        self.pending().len() < QUEUE_CAPACITY
    }

    /// `self` serves the same leg as `o`: same remote address, call, leg and
    /// port; its state, deadline and waiting effects may differ.
    pub open spec fn same_leg(&self, o: &RtpTask) -> bool {
        &&& self.remote_net() == o.remote_net()
        &&& self.call_key() == o.call_key()
        &&& self.leg_key() == o.leg_key()
        &&& self.port() == o.port()
    }

    /// The channel of this leg's call.
    pub open spec fn channel(&self) -> ChannelId {
        ChannelId::Call(self.call_key())
    }

    /// A pending task for a leg of call `call_id` that holds `rtp_port` and
    /// forwards to `addr`.
    pub fn new(call_id: u64, leg_id: u64, rtp_port: usize, addr: NetAddr) -> (r: RtpTask)
        ensures
            r.wf(),
            r.remote_net() == addr,
            r.call_key() == call_id,
            r.leg_key() == leg_id,
            r.port() == rtp_port,
            r.deadline() is None,
            r.state() == RtpState::Pending,
            r.pending() == Seq::<RtpOutput>::empty(),
    {
        RtpTask { addr, call_id, leg_id, rtp_port, timeout: None, state: RtpState::Pending, output: new_queue() }
    }

    /// Builds the pending task of a leg from the remote offer: the task
    /// forwards to the offer's connection address and media port and holds
    /// `rtp_port`; the answer advertises `ip` and `rtp_port`. An offer that
    /// cannot be read, or lacks that address or port, is refused with the
    /// reason.
    pub fn build(call_id: u64, leg_id: u64, rtp_port: u16, ip: &str, sdp: &str) -> (r: Result<(RtpTask, NetAddr, String), String>)
        ensures
            match r {
                Ok((task, addr, answer)) => {
                    &&& offer_address(sdp@) == Ok::<_, Seq<char>>(addr@)
                    &&& answer@ == answer_text(offer_origin(sdp@), ip@, rtp_port as int, rtp_port as int)
                    &&& task.wf()
                    &&& task.remote_net() == addr
                    &&& task.call_key() == call_id
                    &&& task.leg_key() == leg_id
                    &&& task.port() == rtp_port as usize
                    &&& task.deadline() is None
                    &&& task.state() == RtpState::Pending
                    &&& task.pending() == Seq::<RtpOutput>::empty()
                },
                Err(e) => offer_address(sdp@) == Err::<(Seq<char>, u16), _>(e@),
            },
    {
        match get_sdp(sdp, ip, rtp_port) {
            Err(e) => Err(e),
            Ok((addr, answer)) => {
                let task = RtpTask::new(call_id, leg_id, rtp_port as usize, addr.duplicate());
                Ok((task, addr, answer))
            },
        }
    }

    pub fn leg(&self) -> (r: u64)
        ensures
            r == self.leg_key(),
    {
        self.leg_id
    }

    pub fn call(&self) -> (r: u64)
        ensures
            r == self.call_key(),
    {
        self.call_id
    }

    pub fn port_number(&self) -> (r: usize)
        ensures
            r == self.port(),
    {
        self.rtp_port
    }

    pub fn is_active(&self) -> (r: bool)
        ensures
            r == (self.state() == RtpState::Active),
    {
        self.state == RtpState::Active
    }

    /// The address the leg's media is sent to.
    pub fn remote_addr(&self) -> (r: NetAddr)
        ensures
            r@ == self.remote(),
    {
        self.addr.duplicate()
    }

    fn push_and_pop(&mut self, extra: Option<RtpOutput>) -> (r: Option<RtpOutput>)
        requires
            old(self).wf(),
        ensures
            final(self).wf(),
            final(self).same_leg(old(self)),
            final(self).state() == old(self).state(),
            final(self).deadline() == old(self).deadline(),
            (r, final(self).pending()) == drained(
                old(self).pending(),
                match extra {
                    Some(o) => seq![o],
                    None => Seq::<RtpOutput>::empty(),
                },
            ),
    {
        let ghost q = self.pending();
        match extra {
            Some(o) => {
                let ghost og = o;
                enqueue(&mut self.output, o);
                let r = dequeue(&mut self.output);
                assert(q.push(og) == q + seq![og]);
                r
            },
            None => {
                let r = dequeue(&mut self.output);
                assert(q + Seq::<RtpOutput>::empty() == q);
                r
            },
        }
    }

    /// The backend confirmed the leg's socket: a pending task becomes active
    /// and subscribes to its call's channel. In other states nothing is added.
    pub fn on_bind_confirmed(&mut self, now: u64) -> (r: Option<RtpOutput>)
        requires
            old(self).wf(),
        ensures
            final(self).wf(),
            final(self).same_leg(old(self)),
            final(self).deadline() == old(self).deadline(),
            old(self).state() == RtpState::Pending ==> {
                &&& final(self).state() == RtpState::Active
                &&& (r, final(self).pending()) == drained(
                    old(self).pending(),
                    seq![RtpOutput::Bus(BusChannelControl::Subscribe(old(self).channel()))],
                )
            },
            old(self).state() != RtpState::Pending ==> {
                &&& final(self).state() == old(self).state()
                &&& (r, final(self).pending()) == drained(old(self).pending(), Seq::<RtpOutput>::empty())
            },
    {
        if self.state == RtpState::Pending {
            self.state = RtpState::Active;
            self.push_and_pop(Some(RtpOutput::Bus(BusChannelControl::Subscribe(ChannelId::Call(self.call_id)))))
        } else {
            self.push_and_pop(None)
        }
    }

    /// The effect that `input` asks of an active task: a payload from the
    /// socket is published on the call's channel, tagged with this leg; a
    /// payload from another leg is sent to this leg's remote address; a
    /// payload this leg published itself is dropped.
    pub open spec fn reaction(&self, input: RtpInput) -> Seq<RtpOutput> {
        if self.state() != RtpState::Active {
            Seq::empty()
        } else {
            match input {
                RtpInput::UdpPacket { data } => seq![
                    RtpOutput::Bus(
                        BusChannelControl::Publish(
                            self.channel(),
                            true,
                            RtpForwardPacket { from: self.leg_key(), data },
                        ),
                    ),
                ],
                RtpInput::Bus { from, data } => if from != self.leg_key() {
                    seq![RtpOutput::Forward { to: self.remote_net(), data }]
                } else {
                    Seq::empty()
                },
            }
        }
    }

    /// Delivers an input; only an active task reacts to it.
    pub fn on_event(&mut self, now: u64, input: RtpInput) -> (r: Option<RtpOutput>)
        requires
            old(self).wf(),
        ensures
            final(self).wf(),
            final(self).same_leg(old(self)),
            final(self).state() == old(self).state(),
            old(self).state() == RtpState::Active ==> final(self).deadline() is None,
            old(self).state() != RtpState::Active ==> final(self).deadline() == old(self).deadline(),
            (r, final(self).pending()) == drained(old(self).pending(), old(self).reaction(input)),
    {
        if self.state != RtpState::Active {
            return self.push_and_pop(None);
        }
        self.timeout = None;
        match input {
            RtpInput::UdpPacket { data } => {
                let packet = RtpForwardPacket { from: self.leg_id, data };
                self.push_and_pop(
                    Some(RtpOutput::Bus(BusChannelControl::Publish(ChannelId::Call(self.call_id), true, packet))),
                )
            },
            RtpInput::Bus { from, data } => {
                if from != self.leg_id {
                    let to = self.addr.duplicate();
                    self.push_and_pop(Some(RtpOutput::Forward { to, data }))
                } else {
                    self.push_and_pop(None)
                }
            },
        }
    }

    /// Surfaces waiting effects once the task's deadline, if any, has passed.
    pub fn on_tick(&mut self, now: u64) -> (r: Option<RtpOutput>)
        requires
            old(self).wf(),
        ensures
            final(self).wf(),
            final(self).same_leg(old(self)),
            final(self).state() == old(self).state(),
            (old(self).deadline() matches Some(t) && now < t) ==> r is None && final(self).pending()
                == old(self).pending() && final(self).deadline() == old(self).deadline(),
            !(old(self).deadline() matches Some(t) && now < t) ==> final(self).deadline() is None && (
            r, final(self).pending()) == drained(old(self).pending(), Seq::<RtpOutput>::empty()),
    {
        match self.timeout {
            Some(t) => {
                if now < t {
                    return None;
                }
            },
            None => {},
        }
        self.timeout = None;
        self.push_and_pop(None)
    }

    /// Drains the next waiting effect.
    pub fn pop_output(&mut self, now: u64) -> (r: Option<RtpOutput>)
        requires
            old(self).wf(),
        ensures
            final(self).wf(),
            final(self).same_leg(old(self)),
            final(self).state() == old(self).state(),
            final(self).deadline() == old(self).deadline(),
            (r, final(self).pending()) == drained(old(self).pending(), Seq::<RtpOutput>::empty()),
    {
        self.push_and_pop(None)
    }

    /// Ends the task: it asks once for its port to be released and then
    /// ignores every input.
    pub fn shutdown(&mut self, now: u64) -> (r: Option<RtpOutput>)
        requires
            old(self).wf(),
        ensures
            final(self).wf(),
            final(self).same_leg(old(self)),
            final(self).state() == RtpState::Destroyed,
            final(self).deadline() == old(self).deadline(),
            (r, final(self).pending()) == drained(
                old(self).pending(),
                if old(self).state() == RtpState::Destroyed {
                    Seq::<RtpOutput>::empty()
                } else {
                    seq![RtpOutput::Destroy(old(self).port())]
                },
            ),
    {
        if self.state == RtpState::Destroyed {
            self.push_and_pop(None)
        } else {
            self.state = RtpState::Destroyed;
            self.push_and_pop(Some(RtpOutput::Destroy(self.rtp_port)))
        }
    }
}

} // verus!

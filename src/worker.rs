use std::collections::VecDeque;

use vstd::prelude::*;

use crate::addr::{any_host, NetAddr};
use crate::group::RtpTaskGroup;
use crate::hub::{lemma_recipients, recipients, MsgHub, Subscriber};
use crate::ids::{channel_build, key_of, ChannelId, Config, TaskId};
use crate::rpc::{MediaRpcCmd, MediaRpcRequest, MediaRpcResponse, MediaRpcResult};
use crate::session::{answer_text, offer_address, offer_origin};
use crate::store::{ports_of, slots_of, CallMediaStore};
use crate::task::{BusChannelControl, RtpInput, RtpOutput, RtpState, RtpTask};

verus! {

broadcast use vstd::std_specs::hash::group_hash_axioms;

/// A request to the socket backend.
#[derive(Debug)]
pub enum BackendOutgoing {
    UdpListen { addr: NetAddr, reuse: bool },
    UdpUnlisten { slot: usize },
    UdpPacket { slot: usize, to: NetAddr, data: Vec<u8> },
}

/// An event reported by the socket backend.
#[derive(Debug)]
pub enum BackendIncoming {
    /// the outcome of a `UdpListen` on `bind`: the bound address and socket, or an error
    UdpListenResult { bind: NetAddr, result: Result<(NetAddr, usize), String> },
    UdpPacket { slot: usize, from: NetAddr, data: Vec<u8> },
}

#[derive(Debug, Clone)]
pub enum ExtInput {
    Rpc(MediaRpcRequest),
}

#[derive(Debug, Clone)]
pub enum ExtOut {
    Rpc(MediaRpcResponse),
}

/// An input of the worker.
#[derive(Debug)]
pub enum WorkerInput {
    Net(BackendIncoming),
    Ext(ExtInput),
}

/// An effect for the surrounding runtime to apply.
#[derive(Debug)]
pub enum WorkerOutput {
    Net(BackendOutgoing),
    Ext(ExtOut),
    Destroy(TaskId),
}

/// The sockets of `legs` that `sockets` records, in the order of the legs.
pub open spec fn unlistens(legs: Seq<TaskId>, sockets: Map<usize, usize>) -> Seq<usize>
    decreases legs.len(),
{
    if legs.len() == 0 {
        Seq::empty()
    } else if sockets.contains_key(legs.last().slot()) {
        unlistens(legs.drop_last(), sockets).push(sockets[legs.last().slot()])
    } else {
        unlistens(legs.drop_last(), sockets)
    }
}

/// The error returned when no port is free.
pub open spec fn no_port_text() -> Seq<char> {
    "No available port"@
}

/// The error returned for a call whose id has the key of another call.
pub open spec fn collision_text() -> Seq<char> {
    "Call id collides with another call"@
}

/// The error returned for a command the worker does not handle.
pub open spec fn unknown_command_text() -> Seq<char> {
    "UNKNOW_COMMAND"@
}

/// The largest port number.
pub open spec fn max_port() -> usize {
    65535
}

/// The single-threaded relay reactor: it owns the task group, the store and
/// the call channels, takes one input at a time and queues its effects.
pub struct RtpEngineMediaWorker {
    worker: u16,
    public_ip: String,
    rtp_group: RtpTaskGroup,
    output: VecDeque<WorkerOutput>,
    store: CallMediaStore,
    hub: MsgHub,
}

impl RtpEngineMediaWorker {
    pub closed spec fn store(&self) -> CallMediaStore {
        self.store
    }

    pub closed spec fn group(&self) -> RtpTaskGroup {
        self.rtp_group
    }

    pub closed spec fn hub(&self) -> MsgHub {
        self.hub
    }

    /// The effects not yet taken, in order.
    pub closed spec fn outputs(&self) -> Seq<WorkerOutput> {
        self.output@
    }

    pub closed spec fn index(&self) -> u16 {
        self.worker
    }

    pub closed spec fn ip(&self) -> Seq<char> {
        self.public_ip@
    }

    /// Every live task holds the port the store records for it, and every
    /// port is a port number.
    pub open spec fn ports_ok(&self) -> bool {
        &&& self.group().tasks().dom() == self.store().task_ports().dom()
        &&& forall|i: usize| #[trigger] self.group().tasks().contains_key(i) ==> self.group().tasks()[i].port()
            == self.store().task_ports()[i]
        &&& forall|i: int| 0 <= i < self.store().pool().len() ==> #[trigger] self.store().pool()[i] <= max_port()
        &&& forall|i: usize| #[trigger] self.store().task_ports().contains_key(i) ==> self.store().task_ports()[i]
            <= max_port()
    }

    /// Each call lists live tasks of that call.
    pub open spec fn calls_ok(&self) -> bool {
        forall|k: u64, j: int|
            #![trigger self.store().calls()[k][j]]
            self.store().calls().contains_key(k) && 0 <= j < self.store().calls()[k].len() ==> {
                let s = self.store().calls()[k][j].slot();
                &&& self.group().tasks().contains_key(s)
                &&& self.group().tasks()[s].call_key() == k
            }
    }

    /// Every subscriber of a channel is the current, active task of a slot,
    /// and a leg of the channel's call.
    pub open spec fn hub_ok(&self) -> bool {
        forall|c: ChannelId, j: int|
            #![trigger self.hub().subscribers(c)[j]]
            0 <= j < self.hub().subscribers(c).len() ==> {
                let sub = self.hub().subscribers(c)[j];
                &&& self.group().tasks().contains_key(sub.slot)
                &&& self.group().generation(sub.slot) == sub.generation
                &&& self.group().tasks()[sub.slot].channel() == c
                &&& self.group().tasks()[sub.slot].state() == RtpState::Active
            }
    }

    /// Every active task is subscribed to its call's channel.
    pub open spec fn active_ok(&self) -> bool {
        forall|i: usize|
            #[trigger] self.group().tasks().contains_key(i) && self.group().tasks()[i].state() == RtpState::Active
                ==> self.hub().subscribers(self.group().tasks()[i].channel()).contains(
                Subscriber { slot: i, generation: self.group().generation(i) },
            )
    }

    /// No live task has an effect waiting.
    pub open spec fn drained_ok(&self) -> bool {
        forall|i: usize| #[trigger] self.group().tasks().contains_key(i) ==> self.group().tasks()[i].pending().len()
            == 0
    }

    pub open spec fn wf(&self) -> bool {
        &&& self.store().wf()
        &&& self.group().wf()
        &&& self.ports_ok()
        &&& self.store().call_names().dom() == self.store().calls().dom()
        &&& forall|t: usize| #[trigger] self.store().task_remotes().contains_key(t) ==> self.group().tasks().contains_key(t)
        &&& self.calls_ok()
        &&& self.hub_ok()
        &&& self.active_ok()
        &&& self.drained_ok()
        &&& forall|c: ChannelId| #[trigger] self.hub().subscribers(c).no_duplicates()
    }

    /// A worker whose pool holds the configured ports, with no task and no call.
    pub fn build(worker: u16, cfg: Config) -> (r: RtpEngineMediaWorker)
        requires
            cfg.port_range.max <= max_port() + 1,
        ensures
            r.wf(),
            r.store().pool() == crate::store::port_seq(cfg.port_range.min, cfg.port_range.max),
            r.store().calls().is_empty(),
            r.group().tasks().is_empty(),
            r.outputs() == Seq::<WorkerOutput>::empty(),
            r.ip() == cfg.public_ip@,
    {
        let store = CallMediaStore::new(cfg.port_range);
        let r = RtpEngineMediaWorker {
            worker,
            public_ip: cfg.public_ip,
            rtp_group: RtpTaskGroup::new(),
            output: VecDeque::new(),
            store,
            hub: MsgHub::new(),
        };
        assert(r.group().tasks().dom() =~= r.store().task_ports().dom());
        r
    }

    pub fn worker_index(&self) -> (r: u16)
        ensures
            r == self.index(),
    {
        self.worker
    }

    /// Reduces a call or leg identifier to its key.
    pub fn channel_build(channel: &str) -> (r: u64)
        ensures
            r == key_of(channel@),
    {
        channel_build(channel)
    }

    /// Only the store's pool, the task group, the calls and the outputs may differ.
    pub open spec fn same_hub(&self, o: &RtpEngineMediaWorker) -> bool {
        &&& self.hub() == o.hub()
        &&& self.ip() == o.ip()
        &&& self.index() == o.index()
    }

    /// `self` is `o` after a leg of call `call_key` was admitted in slot
    /// `slot`, holding the first free port of `o` and forwarding to `remote`.
    pub open spec fn admitted(&self, o: &RtpEngineMediaWorker, call_key: u64, leg_key: u64, remote: (Seq<char>, u16), slot: usize) -> bool {
        let port = o.store().pool()[0];
        let t = self.group().tasks()[slot];
        &&& o.store().pool().len() > 0
        &&& self.store().pool() == o.store().pool().drop_first()
        &&& !o.group().tasks().contains_key(slot)
        &&& self.group().tasks() == o.group().tasks().insert(slot, t)
        &&& t.remote() == remote
        &&& t.call_key() == call_key
        &&& t.leg_key() == leg_key
        &&& t.port() == port
        &&& t.state() == RtpState::Pending
        &&& self.store().task_ports() == o.store().task_ports().insert(slot, port)
        &&& self.store().calls() == o.store().calls().insert(
            call_key,
            if o.store().calls().contains_key(call_key) {
                o.store().calls()[call_key].push(TaskId::Rtp(slot))
            } else {
                seq![TaskId::Rtp(slot)]
            },
        )
        &&& self.store().task_remotes() == o.store().task_remotes().insert(slot, remote)
        &&& self.store().remote_tasks() == o.store().remote_tasks().insert(remote, slot)
        &&& self.store().local_tasks() == o.store().local_tasks().insert((any_host(), port as u16), slot)
        &&& self.outputs().len() == o.outputs().len() + 1
        &&& self.outputs().subrange(0, o.outputs().len() as int) == o.outputs()
        &&& self.outputs().last() matches WorkerOutput::Net(BackendOutgoing::UdpListen { addr, reuse })
        &&& addr@ == (any_host(), port as u16)
        &&& !reuse
        &&& self.same_hub(o)
    }

    /// `call_id` has the key of a call that was started under another id.
    pub open spec fn collides(&self, call_id: Seq<char>) -> bool {
        &&& self.store().call_names().contains_key(key_of(call_id))
        &&& self.store().call_names()[key_of(call_id)] != call_id
    }

    /// Nothing a contract speaks of changed.
    pub open spec fn unchanged(&self, o: &RtpEngineMediaWorker) -> bool {
        &&& self.store().pool() == o.store().pool()
        &&& self.store().same_tables(&o.store())
        &&& self.group().tasks() == o.group().tasks()
        &&& self.group().same_generations(&o.group())
        &&& self.outputs() == o.outputs()
        &&& self.same_hub(o)
    }

    fn collision() -> (r: String)
        ensures
            r@ == collision_text(),
    {
        String::from_str("Call id collides with another call")
    }

    fn no_port() -> (r: String)
        ensures
            r@ == no_port_text(),
    {
        String::from_str("No available port")
    }

    /// Admits a new leg of a call: takes a free port, reads the offer, starts
    /// the leg's task, records it in the store, asks the backend to open its
    /// socket and returns the answer. On any error nothing changes. When every
    /// slot index of the task group is taken (`usize::MAX` tasks) the leg is
    /// refused as if no port were free.
    pub fn new_leg(&mut self, call_id: String, leg_id: String, sdp: String) -> (r: Result<String, String>)
        requires
            old(self).wf(),
        ensures
            final(self).wf(),
            old(self).store().pool().len() == 0 ==> r is Err && r->Err_0@ == no_port_text()
                && final(self).unchanged(old(self)),
            old(self).store().pool().len() > 0 && old(self).collides(call_id@) ==> r is Err && r->Err_0@
                == collision_text() && final(self).unchanged(old(self)),
            old(self).store().pool().len() > 0 && !old(self).collides(call_id@) && offer_address(sdp@) is Err ==> r is Err
                && r->Err_0@ == offer_address(sdp@)->Err_0 && final(self).unchanged(old(self)),
            old(self).store().pool().len() > 0 && !old(self).collides(call_id@) && offer_address(sdp@) is Ok
                && old(self).group().capacity() < usize::MAX ==> r is Ok && r->Ok_0@ == answer_text(
                offer_origin(sdp@),
                old(self).ip(),
                old(self).store().pool()[0] as int,
                old(self).store().pool()[0] as int,
            ) && final(self).store().call_names()
                == old(self).store().call_names().insert(key_of(call_id@), call_id@) && exists|slot: usize|
                #[trigger] final(self).admitted(
                    old(self),
                    key_of(call_id@),
                    key_of(leg_id@),
                    offer_address(sdp@)->Ok_0,
                    slot,
                ),
            old(self).store().pool().len() > 0 && !old(self).collides(call_id@) && offer_address(sdp@) is Ok
                && old(self).group().capacity() == usize::MAX ==> r is Err && r->Err_0@ == no_port_text()
                && final(self).unchanged(old(self)),
    {
        let call_id_hashed = channel_build(call_id.as_str());
        let leg_id_hashed = channel_build(leg_id.as_str());
        let port = match self.store.next_port() {
            None => {
                return Err(Self::no_port());
            },
            Some(p) => p,
        };
        proof {
            assert(old(self).store().pool().contains(port));
        }
        match self.store.name_of_call(call_id_hashed) {
            Some(name) => {
                if name != call_id {
                    self.store.restore_port(port);
                    proof {
                        assert(self.store().pool() =~= old(self).store().pool());
                        assert(self.unchanged(old(self)));
                    }
                    return Err(Self::collision());
                }
            },
            None => {},
        }
        match RtpTask::build(call_id_hashed, leg_id_hashed, port as u16, self.public_ip.as_str(), sdp.as_str()) {
            Err(e) => {
                self.store.restore_port(port);
                proof {
                    assert(self.store().pool() =~= old(self).store().pool());
                    assert(self.unchanged(old(self)));
                    assert(offer_address(sdp@) == Err::<(Seq<char>, u16), Seq<char>>(e@));
                }
                Err(e)
            },
            Ok((task, addr, answer)) => {
                if self.rtp_group.slot_count() == usize::MAX {
                    self.store.restore_port(port);
                    proof {
                        assert(self.store().pool() =~= old(self).store().pool());
                        assert(self.unchanged(old(self)));
                    }
                    return Err(Self::no_port());
                }
                let ghost remote = addr@;
                let ghost t = task;
                proof {
                    assert(old(self).store().pool()[0] <= max_port());
                    assert((port as u16) as int == port as int);
                }
                let idx = self.rtp_group.add_task(task);
                let tid = TaskId::Rtp(idx);
                let bind_addr = NetAddr::any_ipv4(port as u16);
                self.store.add_task(addr, tid);
                self.store.add_call(call_id_hashed, tid);
                self.store.name_call(call_id_hashed, call_id);
                proof {
                    assert forall|u: usize| #[trigger] self.store().task_ports().contains_key(u) implies self.store().task_ports()[u] != port by {
                        assert(old(self).store().task_ports().contains_key(u));
                    }
                    assert(!self.store().task_ports().contains_key(idx));
                }
                self.store.assign_port(tid, port);
                self.store.save_addr_task(bind_addr.duplicate(), tid);
                let ghost before_out = self.output@;
                self.output.push_back(WorkerOutput::Net(BackendOutgoing::UdpListen { addr: bind_addr, reuse: false }));
                proof {
                    let o = old(self);
                    assert(self.group().tasks()[idx] == t);
                    assert(self.group().tasks().dom() =~= self.store().task_ports().dom());
                    assert forall|i: int| 0 <= i < self.store().pool().len() implies #[trigger] self.store().pool()[i] <= max_port() by {
                        assert(self.store().pool()[i] == o.store().pool()[i + 1]);
                    }
                    assert forall|u: usize| #[trigger] self.store().task_ports().contains_key(u) implies self.store().task_ports()[u] <= max_port() by {
                        if u != idx {
                            assert(o.store().task_ports().contains_key(u));
                        } else {
                            assert(o.store().pool()[0] <= max_port());
                        }
                    }
                    assert forall|i: usize| #[trigger] self.group().tasks().contains_key(i) implies self.group().tasks()[i].port()
                        == self.store().task_ports()[i] by {
                        if i != idx {
                            assert(o.group().tasks().contains_key(i));
                        }
                    }
                    assert forall|k: u64, j: int|
                        self.store().calls().contains_key(k) && 0 <= j < self.store().calls()[k].len() implies {
                            let s = #[trigger] self.store().calls()[k][j].slot();
                            &&& self.group().tasks().contains_key(s)
                            &&& self.group().tasks()[s].call_key() == k
                        } by {
                        if k == call_id_hashed && j == self.store().calls()[k].len() - 1 {
                        } else {
                            assert(o.store().calls().contains_key(k));
                            assert(o.store().calls()[k][j] == self.store().calls()[k][j]);
                            let s = o.store().calls()[k][j].slot();
                            assert(o.group().tasks().contains_key(s));
                        }
                    }
                    assert forall|c: ChannelId, j: int| 0 <= j < self.hub().subscribers(c).len() implies {
                            let sub = #[trigger] self.hub().subscribers(c)[j];
                            &&& self.group().tasks().contains_key(sub.slot)
                            &&& self.group().generation(sub.slot) == sub.generation
                            &&& self.group().tasks()[sub.slot].channel() == c
                            &&& self.group().tasks()[sub.slot].state() == RtpState::Active
                        } by {
                        let sub = o.hub().subscribers(c)[j];
                        assert(o.group().tasks().contains_key(sub.slot));
                        assert(sub.slot < o.group().capacity()) by {
                            o.group().lemma_live_below_capacity(sub.slot);
                        }
                    }
                    assert forall|i: usize| #[trigger] self.group().tasks().contains_key(i) implies self.group().tasks()[i].pending().len() == 0 by {
                        if i != idx {
                            assert(o.group().tasks().contains_key(i));
                        }
                    }
                    assert(self.outputs().subrange(0, o.outputs().len() as int) =~= o.outputs());
                    assert(self.admitted(o, key_of(call_id@), key_of(leg_id@), remote, idx));
                    assert(offer_address(sdp@) == Ok::<(Seq<char>, u16), Seq<char>>(remote));
                    assert(self.admitted(old(self), key_of(call_id@), key_of(leg_id@), offer_address(sdp@)->Ok_0, idx));
                    
                }
                Ok(answer)
            },
        }
    }

    /// `self` is `o` after the call `call_key` ended: its legs' tasks are gone,
    /// the ports they held are free again, the call is forgotten, and the
    /// backend is asked to close their sockets. A call that is not there is
    /// left alone.
    pub open spec fn ended(&self, o: &RtpEngineMediaWorker, call_key: u64) -> bool {
        if !o.store().calls().contains_key(call_key) {
            self.unchanged(o)
        } else {
            let legs = o.store().calls()[call_key];
            &&& self.store().calls() == o.store().calls().remove(call_key)
            &&& self.store().task_ports() == o.store().task_ports().remove_keys(slots_of(legs))
            &&& self.store().pool().to_set() == o.store().pool().to_set() + ports_of(o.store().task_ports(), legs)
            &&& self.store().pool().subrange(0, o.store().pool().len() as int) == o.store().pool()
            &&& self.group().tasks() == o.group().tasks().remove_keys(slots_of(legs))
            &&& self.store().task_remotes() == o.store().task_remotes().remove_keys(slots_of(legs))
            &&& self.store().task_slots() == o.store().task_slots().remove_keys(slots_of(legs))
            &&& forall|a: (Seq<char>, u16)| #[trigger] self.store().remote_tasks().contains_key(a)
                ==> !slots_of(legs).contains(self.store().remote_tasks()[a])
            &&& forall|a: (Seq<char>, u16)| #[trigger] self.store().local_tasks().contains_key(a)
                ==> !slots_of(legs).contains(self.store().local_tasks()[a])
            &&& self.closed(o, unlistens(legs, o.store().task_slots()))
        }
    }

    /// `self` has the outputs of `o` followed by one close request for each
    /// socket of `slots`, in order.
    pub open spec fn closed(&self, o: &RtpEngineMediaWorker, slots: Seq<usize>) -> bool {
        &&& self.outputs().len() == o.outputs().len() + slots.len()
        &&& self.outputs().subrange(0, o.outputs().len() as int) == o.outputs()
        &&& forall|j: int| 0 <= j < slots.len() ==> (#[trigger] self.outputs()[o.outputs().len() + j] matches
            WorkerOutput::Net(BackendOutgoing::UdpUnlisten { slot }) && slot == slots[j])
    }

    /// Ends a call: closes and drops the task of each of its legs, then
    /// forgets the call in the store, which frees their ports.
    pub fn process_end_call(&mut self, call_id: &str)
        requires
            old(self).wf(),
        ensures
            final(self).wf(),
            final(self).ended(old(self), key_of(call_id@)),
    {
        let hashed = channel_build(call_id);
        let mut tasks: Vec<TaskId> = Vec::new();
        match self.store.get_call(hashed) {
            Some(v) => {
                let mut j: usize = 0;
                while j < v.len()
                    invariant
                        j <= v@.len(),
                        tasks@ == v@.take(j as int),
                    decreases v@.len() - j,
                {
                    tasks.push(v[j]);
                    j = j + 1;
                    assert(tasks@ =~= v@.take(j as int));
                }
                assert(v@.take(v@.len() as int) =~= v@);
            },
            None => {
                return;
            },
        }
        let ghost legs = tasks@;
        let ghost o = *self;
        proof {
            assert(legs.take(0) =~= Seq::<TaskId>::empty());
            assert(o.outputs().subrange(0, o.outputs().len() as int) =~= o.outputs());
        }
        let mut i: usize = 0;
        while i < tasks.len()
            invariant
                o.wf(),
                legs == tasks@,
                o.store().calls().contains_key(hashed),
                o.store().calls()[hashed] == legs,
                i <= legs.len(),
                self.store() == o.store(),
                self.ip() == o.ip(),
                self.index() == o.index(),
                self.group().wf(),
                self.group().tasks() == o.group().tasks().remove_keys(slots_of(legs.take(i as int))),
                self.hub_ok(),
                self.active_ok(),
                forall|c: ChannelId| #[trigger] self.hub().subscribers(c).no_duplicates(),
                self.closed(&o, unlistens(legs.take(i as int), o.store().task_slots())),
            decreases legs.len() - i,
        {
            let t = tasks[i];
            let idx = t.index();
            let ghost before = *self;
            match self.store.get_slot_by_task(&t) {
                Some(slot) => {
                    self.output.push_back(WorkerOutput::Net(BackendOutgoing::UdpUnlisten { slot }));
                },
                None => {},
            }
            let ghost mid = *self;
            match self.rtp_group.generation_of(idx) {
                Some(g) => {
                    self.hub.unsubcribe(ChannelId::Call(hashed), Subscriber { slot: idx, generation: g });
                },
                None => {},
            }
            let ghost mid2 = *self;
            self.rtp_group.remove_task(idx);
            proof {
                let s0 = slots_of(legs.take(i as int));
                let s1 = slots_of(legs.take(i + 1));
                assert(legs.take(i + 1) == legs.take(i as int).push(t));
                assert(s1 =~= s0.insert(idx)) by {
                    assert forall|x: usize| s1.contains(x) implies s0.insert(idx).contains(x) by {
                        let k = choose|k: int| 0 <= k < legs.take(i + 1).len() && #[trigger] legs.take(i + 1)[k].slot() == x;
                        if k < i {
                            assert(legs.take(i as int)[k] == legs.take(i + 1)[k]);
                        }
                    }
                    assert forall|x: usize| s0.insert(idx).contains(x) implies s1.contains(x) by {
                        if x == idx {
                            assert(legs.take(i + 1)[i as int].slot() == x);
                        } else {
                            let k = choose|k: int| 0 <= k < legs.take(i as int).len() && #[trigger] legs.take(i as int)[k].slot() == x;
                            assert(legs.take(i + 1)[k] == legs.take(i as int)[k]);
                        }
                    }
                }
                assert(self.group().tasks() =~= o.group().tasks().remove_keys(s1));
                // the leg belongs to this call
                assert(o.store().calls()[hashed][i as int] == t);
                let u0 = unlistens(legs.take(i as int), o.store().task_slots());
                let u1 = unlistens(legs.take(i + 1), o.store().task_slots());
                assert(legs.take(i + 1).last() == t);
                assert(legs.take(i + 1).drop_last() =~= legs.take(i as int));
                assert(before.outputs().len() == o.outputs().len() + u0.len());
                if o.store().task_slots().contains_key(t.slot()) {
                    assert(u1 == u0.push(o.store().task_slots()[t.slot()]));
                    assert(mid.outputs() == before.outputs().push(WorkerOutput::Net(BackendOutgoing::UdpUnlisten { slot: o.store().task_slots()[t.slot()] })));
                } else {
                    assert(u1 == u0);
                    assert(mid.outputs() == before.outputs());
                }
                assert(self.outputs() == mid.outputs());
                assert(self.outputs().subrange(0, o.outputs().len() as int) =~= o.outputs()) by {
                    assert forall|j: int| 0 <= j < o.outputs().len() implies self.outputs()[j] == o.outputs()[j] by {
                        assert(before.outputs().subrange(0, o.outputs().len() as int)[j] == o.outputs()[j]);
                        assert(self.outputs()[j] == before.outputs()[j]);
                    }
                }
                assert forall|j: int| 0 <= j < u1.len() implies (#[trigger] self.outputs()[o.outputs().len() + j] matches
                    WorkerOutput::Net(BackendOutgoing::UdpUnlisten { slot }) && slot == u1[j]) by {
                    if j < u0.len() {
                        assert(self.outputs()[o.outputs().len() + j] == before.outputs()[o.outputs().len() + j]);
                        assert(u1[j] == u0[j]);
                    }
                }
                assert(self.closed(&o, u1));
                assert forall|c: ChannelId, j: int| 0 <= j < self.hub().subscribers(c).len() implies {
                    let sub = #[trigger] self.hub().subscribers(c)[j];
                    &&& self.group().tasks().contains_key(sub.slot)
                    &&& self.group().generation(sub.slot) == sub.generation
                    &&& self.group().tasks()[sub.slot].channel() == c
                    &&& self.group().tasks()[sub.slot].state() == RtpState::Active
                } by {
                    let sub = self.hub().subscribers(c)[j];
                    assert(self.hub() == mid2.hub());
                    assert(mid2.hub().subscribers(c)[j] == sub);
                    let k: int = if idx < mid.group().capacity() && c == ChannelId::Call(hashed) {
                        assert(mid.hub().subscribers(c).contains(sub));
                        choose|k: int| 0 <= k < mid.hub().subscribers(c).len() && mid.hub().subscribers(c)[k] == sub
                    } else {
                        j
                    };
                    assert(before.hub().subscribers(c)[k] == sub);
                    before.group().lemma_live_below_capacity(sub.slot);
                    if sub.slot == idx {
                        assert(o.group().tasks().contains_key(idx));
                        assert(o.group().tasks()[idx].call_key() == hashed);
                        assert(c == ChannelId::Call(hashed));
                        assert(mid2.hub().subscribers(c)[j] != Subscriber { slot: idx, generation: mid.group().generation(idx) });
                        assert(false);
                    }
                }
                assert forall|x: usize|
                    #[trigger] self.group().tasks().contains_key(x) && self.group().tasks()[x].state() == RtpState::Active
                        implies self.hub().subscribers(self.group().tasks()[x].channel()).contains(
                        Subscriber { slot: x, generation: self.group().generation(x) },
                    ) by {
                    let tx = self.group().tasks()[x];
                    let me = Subscriber { slot: x, generation: self.group().generation(x) };
                    assert(before.group().tasks().contains_key(x));
                    before.group().lemma_live_below_capacity(x);
                    assert(before.hub().subscribers(tx.channel()).contains(me));
                    if idx < mid.group().capacity() && tx.channel() == ChannelId::Call(hashed) {
                        let gone = Subscriber { slot: idx, generation: mid.group().generation(idx) };
                        let subs = mid.hub().subscribers(tx.channel());
                        subs.filter_lemma(|s: Subscriber| s != gone);
                        let k = choose|k: int| 0 <= k < subs.len() && subs[k] == me;
                        assert(subs[k] == me);
                    }
                }
            }
            i = i + 1;
        }
        let ghost g1 = self.group();
        self.store.remove_call(hashed);
        proof {
            assert(legs.take(legs.len() as int) == legs);
            let k = hashed;
            assert(self.group().tasks().dom() =~= self.store().task_ports().dom());
            assert forall|i: usize| #[trigger] self.group().tasks().contains_key(i) implies self.group().tasks()[i].port()
                == self.store().task_ports()[i] by {
                assert(o.group().tasks().contains_key(i));
            }
            assert forall|j: int| 0 <= j < self.store().pool().len() implies #[trigger] self.store().pool()[j] <= max_port() by {
                let p = self.store().pool()[j];
                assert(self.store().pool().to_set().contains(p));
                if o.store().pool().to_set().contains(p) {
                    let m = choose|m: int| 0 <= m < o.store().pool().len() && o.store().pool()[m] == p;
                    assert(o.store().pool()[m] <= max_port());
                } else {
                    assert(ports_of(o.store().task_ports(), legs).contains(p));
                    let m = choose|m: int| 0 <= m < legs.len() && o.store().task_ports().contains_key(#[trigger] legs[m].slot()) && o.store().task_ports()[legs[m].slot()] == p;
                    assert(o.store().task_ports()[legs[m].slot()] <= max_port());
                }
            }
            assert forall|u: usize| #[trigger] self.store().task_ports().contains_key(u) implies self.store().task_ports()[u] <= max_port() by {
                assert(o.store().task_ports().contains_key(u));
            }
            assert forall|kk: u64, j: int|
                self.store().calls().contains_key(kk) && 0 <= j < self.store().calls()[kk].len() implies {
                    let s = #[trigger] self.store().calls()[kk][j].slot();
                    &&& self.group().tasks().contains_key(s)
                    &&& self.group().tasks()[s].call_key() == kk
                } by {
                let s = self.store().calls()[kk][j].slot();
                assert(o.store().calls().contains_key(kk));
                assert(o.store().calls()[kk][j] == self.store().calls()[kk][j]);
                assert(o.group().tasks().contains_key(s));
                if slots_of(legs).contains(s) {
                    let m = choose|m: int| 0 <= m < legs.len() && #[trigger] legs[m].slot() == s;
                    assert(o.store().calls()[k][m].slot() == s);
                    assert(false);
                }
            }
            assert forall|ii: usize| #[trigger] self.group().tasks().contains_key(ii) implies self.group().tasks()[ii].pending().len() == 0 by {
                assert(o.group().tasks().contains_key(ii));
            }
            assert(self.active_ok()) by {
                assert(g1 == self.group());
            }
            assert(self.hub_ok()) by {
                assert forall|c: ChannelId, j: int| 0 <= j < self.hub().subscribers(c).len() implies {
                    let sub = #[trigger] self.hub().subscribers(c)[j];
                    &&& self.group().tasks().contains_key(sub.slot)
                    &&& self.group().generation(sub.slot) == sub.generation
                    &&& self.group().tasks()[sub.slot].channel() == c
                    &&& self.group().tasks()[sub.slot].state() == RtpState::Active
                } by {
                    assert(g1 == self.group());
                }
            }
        }
    }

    /// The socket, destination and payload of an output that sends a packet.
    pub open spec fn sent(o: WorkerOutput) -> Option<(usize, (Seq<char>, u16), Seq<u8>)> {
        match o {
            WorkerOutput::Net(BackendOutgoing::UdpPacket { slot, to, data }) => Some((slot, to@, data@)),
            _ => None,
        }
    }

    /// The packets that delivering `data`, published by leg `leg`, to
    /// `recips` sends: one per recipient of another leg whose socket is
    /// bound, from that socket to the recipient's remote address, in order.
    pub open spec fn fanout(w: RtpEngineMediaWorker, recips: Seq<Subscriber>, leg: u64, data: Seq<u8>) -> Seq<(usize, (Seq<char>, u16), Seq<u8>)>
        decreases recips.len(),
    {
        if recips.len() == 0 {
            Seq::empty()
        } else {
            let rest = Self::fanout(w, recips.drop_last(), leg, data);
            let r = recips.last();
            let t = w.group().tasks()[r.slot];
            if t.leg_key() != leg && w.store().task_slots().contains_key(r.slot) {
                rest.push((w.store().task_slots()[r.slot], t.remote(), data))
            } else {
                rest
            }
        }
    }

    /// `self` has the outputs of `o` followed by packets sent as `sends` says.
    pub open spec fn appended(&self, o: &RtpEngineMediaWorker, sends: Seq<(usize, (Seq<char>, u16), Seq<u8>)>) -> bool {
        &&& self.outputs().len() == o.outputs().len() + sends.len()
        &&& self.outputs().subrange(0, o.outputs().len() as int) == o.outputs()
        &&& forall|j: int| 0 <= j < sends.len() ==> Self::sent(#[trigger] self.outputs()[o.outputs().len() + j]) == Some(sends[j])
    }

    /// The group, store and hub of `o` carried over: same tasks for the same
    /// legs in the same states under the same generations.
    pub open spec fn same_relay(&self, o: &RtpEngineMediaWorker) -> bool {
        &&& self.store().pool() == o.store().pool()
        &&& self.store().same_tables(&o.store())
        &&& self.group().same_legs(&o.group())
        &&& self.group().same_generations(&o.group())
        &&& self.same_hub(o)
    }

    proof fn lemma_appended_trans(
        a: RtpEngineMediaWorker,
        b: RtpEngineMediaWorker,
        c: RtpEngineMediaWorker,
        s1: Seq<(usize, (Seq<char>, u16), Seq<u8>)>,
        s2: Seq<(usize, (Seq<char>, u16), Seq<u8>)>,
    )
        requires
            b.appended(&a, s1),
            c.appended(&b, s2),
        ensures
            c.appended(&a, s1 + s2),
    {
        let n = a.outputs().len();
        assert forall|j: int| 0 <= j < n implies c.outputs()[j] == a.outputs()[j] by {
            assert(c.outputs().subrange(0, b.outputs().len() as int)[j] == b.outputs()[j]);
            assert(b.outputs().subrange(0, n as int)[j] == a.outputs()[j]);
        }
        assert(c.outputs().subrange(0, n as int) =~= a.outputs());
        assert forall|j: int| 0 <= j < (s1 + s2).len() implies Self::sent(#[trigger] c.outputs()[n + j]) == Some((s1 + s2)[j]) by {
            if j < s1.len() {
                assert(c.outputs().subrange(0, b.outputs().len() as int)[n + j] == b.outputs()[n + j]);
                assert(Self::sent(b.outputs()[n + j]) == Some(s1[j]));
            } else {
                assert(Self::sent(c.outputs()[b.outputs().len() + (j - s1.len())]) == Some(s2[j - s1.len()]));
            }
        }
    }

    proof fn lemma_fanout_same(w1: RtpEngineMediaWorker, w2: RtpEngineMediaWorker, recips: Seq<Subscriber>, leg: u64, data: Seq<u8>)
        requires
            w1.store().task_slots() == w2.store().task_slots(),
            w2.group().same_legs(&w1.group()),
            forall|j: int| 0 <= j < recips.len() ==> w1.group().tasks().contains_key(#[trigger] recips[j].slot),
        ensures
            Self::fanout(w1, recips, leg, data) == Self::fanout(w2, recips, leg, data),
        decreases recips.len(),
    {
        if recips.len() > 0 {
            Self::lemma_fanout_same(w1, w2, recips.drop_last(), leg, data);
            assert(w1.group().tasks().contains_key(recips[recips.len() - 1].slot));
        }
    }

    proof fn lemma_wf_carried(o: RtpEngineMediaWorker, w: RtpEngineMediaWorker)
        requires
            o.wf(),
            w.store().wf(),
            w.store().pool() == o.store().pool(),
            w.store().task_ports() == o.store().task_ports(),
            w.store().calls() == o.store().calls(),
            w.store().call_names() == o.store().call_names(),
            w.store().task_remotes() == o.store().task_remotes(),
            w.hub() == o.hub(),
            w.group().wf(),
            w.group().same_legs(&o.group()),
            w.group().same_generations(&o.group()),
            w.drained_ok(),
        ensures
            w.wf(),
    {
        assert forall|i: usize| #[trigger] w.group().tasks().contains_key(i) implies w.group().tasks()[i].port()
            == w.store().task_ports()[i] by {
            assert(o.group().tasks().contains_key(i));
        }
        assert forall|t: usize| #[trigger] w.store().task_remotes().contains_key(t) implies w.group().tasks().contains_key(t) by {
            assert(o.store().task_remotes().contains_key(t));
        }
        assert forall|k: u64, j: int|
            w.store().calls().contains_key(k) && 0 <= j < w.store().calls()[k].len() implies {
                let s = #[trigger] w.store().calls()[k][j].slot();
                &&& w.group().tasks().contains_key(s)
                &&& w.group().tasks()[s].call_key() == k
            } by {
            let s = o.store().calls()[k][j].slot();
            assert(o.group().tasks().contains_key(s));
        }
        assert forall|c: ChannelId, j: int| 0 <= j < w.hub().subscribers(c).len() implies {
            let sub = #[trigger] w.hub().subscribers(c)[j];
            &&& w.group().tasks().contains_key(sub.slot)
            &&& w.group().generation(sub.slot) == sub.generation
            &&& w.group().tasks()[sub.slot].channel() == c
            &&& w.group().tasks()[sub.slot].state() == RtpState::Active
        } by {
            let sub = o.hub().subscribers(c)[j];
            assert(o.group().tasks().contains_key(sub.slot));
            o.group().lemma_live_below_capacity(sub.slot);
        }
    }

    fn copy_bytes(data: &Vec<u8>) -> (r: Vec<u8>)
        ensures
            r@ == data@,
    {
        let mut r: Vec<u8> = Vec::new();
        let mut i: usize = 0;
        while i < data.len()
            invariant
                i <= data@.len(),
                r@ == data@.take(i as int),
            decreases data@.len() - i,
        {
            r.push(data[i]);
            i = i + 1;
            assert(r@ =~= data@.take(i as int));
        }
        assert(data@.take(data@.len() as int) =~= data@);
        r
    }

    /// Sends `data` to `to` from the socket of the task in `index`, once that
    /// socket is bound.
    fn emit_forward(&mut self, index: usize, to: NetAddr, data: Vec<u8>)
        ensures
            final(self).store() == old(self).store(),
            final(self).group() == old(self).group(),
            final(self).same_hub(old(self)),
            final(self).appended(
                old(self),
                if old(self).store().task_slots().contains_key(index) {
                    seq![(old(self).store().task_slots()[index], to@, data@)]
                } else {
                    Seq::empty()
                },
            ),
    {
        match self.store.get_slot_by_task(&TaskId::Rtp(index)) {
            Some(slot) => {
                self.output.push_back(WorkerOutput::Net(BackendOutgoing::UdpPacket { slot, to, data }));
                assert(self.outputs().subrange(0, old(self).outputs().len() as int) =~= old(self).outputs());
            },
            None => {
                assert(self.outputs().subrange(0, old(self).outputs().len() as int) =~= old(self).outputs());
            },
        }
    }

    /// Delivers a publication of leg `from` on `channel` to its recipients:
    /// each recipient's task forwards it to its leg's remote address unless
    /// it is that same leg.
    fn fan_out(&mut self, now: u64, channel: ChannelId, origin: Subscriber, exclude_origin: bool, from: u64, data: &Vec<u8>)
        requires
            old(self).wf(),
        ensures
            final(self).wf(),
            final(self).same_relay(old(self)),
            final(self).store() == old(self).store(),
            final(self).appended(
                old(self),
                Self::fanout(*old(self), recipients(old(self).hub().subscribers(channel), origin, exclude_origin), from, data@),
            ),
    {
        let recips = self.hub.publish(channel, origin, exclude_origin);
        let ghost o = *self;
        proof {
            lemma_recipients(o.hub().subscribers(channel), origin, exclude_origin);
            assert(recips@.take(0) =~= Seq::<Subscriber>::empty());
            assert(o.outputs().subrange(0, o.outputs().len() as int) =~= o.outputs());
        }
        let mut i: usize = 0;
        while i < recips.len()
            invariant
                o.wf(),
                self.wf(),
                i <= recips@.len(),
                recips@ == recipients(o.hub().subscribers(channel), origin, exclude_origin),
                forall|j: int| 0 <= j < recips@.len() ==> o.hub().subscribers(channel).contains(#[trigger] recips@[j]),
                self.same_relay(&o),
                self.store() == o.store(),
                self.hub() == o.hub(),
                self.appended(&o, Self::fanout(o, recips@.take(i as int), from, data@)),
            decreases recips@.len() - i,
        {
            let r = recips[i];
            let ghost before = *self;
            let ghost t = o.group().tasks()[r.slot];
            let ghost extra = if t.leg_key() != from && o.store().task_slots().contains_key(r.slot) {
                seq![(o.store().task_slots()[r.slot], t.remote(), data@)]
            } else {
                Seq::<(usize, (Seq<char>, u16), Seq<u8>)>::empty()
            };
            proof {
                assert(o.hub().subscribers(channel).contains(r));
                let k = choose|k: int| 0 <= k < o.hub().subscribers(channel).len() && o.hub().subscribers(channel)[k] == r;
                assert(o.hub().subscribers(channel)[k] == r);
                assert(o.group().tasks().contains_key(r.slot));
                assert(before.group().tasks().contains_key(r.slot));
                o.group().lemma_live_below_capacity(r.slot);
                assert(before.group().generation(r.slot) == r.generation);
                assert(recips@.take(i + 1).drop_last() == recips@.take(i as int));
                assert(recips@.take(i + 1).last() == r);
                assert(Self::fanout(o, recips@.take(i + 1), from, data@) == Self::fanout(o, recips@.take(i as int), from, data@) + extra);
            }
            let is_current = self.rtp_group.is_current(r.slot, r.generation);
            assert(is_current);
            let out = self.rtp_group.on_event(now, r.slot, RtpInput::Bus { from, data: Self::copy_bytes(data) });
            let ghost mid = *self;
            proof {
                assert(before.group().tasks()[r.slot].pending().len() == 0);
                assert(mid.group().tasks()[r.slot].pending().len() == 0);
                assert(mid.group().same_legs(&o.group())) by {
                    assert forall|x: usize| #[trigger] mid.group().tasks().contains_key(x) implies {
                        &&& mid.group().tasks()[x].same_leg(&o.group().tasks()[x])
                        &&& mid.group().tasks()[x].state() == o.group().tasks()[x].state()
                    } by {
                        assert(before.group().tasks().contains_key(x));
                    }
                }
                assert(mid.drained_ok()) by {
                    assert forall|x: usize| #[trigger] mid.group().tasks().contains_key(x) implies mid.group().tasks()[x].pending().len() == 0 by {
                        assert(before.group().tasks().contains_key(x));
                    }
                }
                Self::lemma_wf_carried(o, mid);
                assert(mid.outputs() == before.outputs());
                assert(before.group().tasks()[r.slot].same_leg(&t));
                assert(before.group().tasks()[r.slot].state() == RtpState::Active);
                assert(mid.appended(&before, Seq::empty())) by {
                    assert(mid.outputs().subrange(0, before.outputs().len() as int) =~= before.outputs());
                }
            }
            match out {
                Some(RtpOutput::Forward { to, data: payload }) => {
                    self.emit_forward(r.slot, to, payload);
                },
                _ => {},
            }
            proof {
                assert(self.appended(&before, extra));
                Self::lemma_appended_trans(o, before, *self, Self::fanout(o, recips@.take(i as int), from, data@), extra);
            }
            i = i + 1;
        }
        proof {
            assert(recips@.take(recips@.len() as int) == recips@);
        }
    }

    /// The packets sent when `data` arrives from `from`: the task whose
    /// remote address is `from`, if it is active, publishes the payload on
    /// its call's channel, and every other leg's task subscribed there
    /// forwards it.
    pub open spec fn packet_sends(w: RtpEngineMediaWorker, from: (Seq<char>, u16), data: Seq<u8>) -> Seq<(usize, (Seq<char>, u16), Seq<u8>)> {
        if w.store().remote_tasks().contains_key(from) && w.group().tasks().contains_key(w.store().remote_tasks()[from])
            && w.group().tasks()[w.store().remote_tasks()[from]].state() == RtpState::Active {
            let i = w.store().remote_tasks()[from];
            let t = w.group().tasks()[i];
            Self::fanout(
                w,
                recipients(w.hub().subscribers(t.channel()), Subscriber { slot: i, generation: w.group().generation(i) }, true),
                t.leg_key(),
                data,
            )
        } else {
            Seq::empty()
        }
    }

    /// A payload arrived on backend socket `slot` from `from`: the socket is
    /// recorded for that address, and the payload is relayed to the other
    /// legs of the sender's call.
    pub fn on_backend_packet(&mut self, now: u64, slot: usize, from: NetAddr, data: Vec<u8>)
        requires
            old(self).wf(),
        ensures
            final(self).wf(),
            final(self).store().backends() == old(self).store().backends().insert(from@, slot),
            final(self).store().pool() == old(self).store().pool(),
            final(self).store().remote_tasks() == old(self).store().remote_tasks(),
            final(self).store().task_remotes() == old(self).store().task_remotes(),
            final(self).store().local_tasks() == old(self).store().local_tasks(),
            final(self).store().task_slots() == old(self).store().task_slots(),
            final(self).store().task_ports() == old(self).store().task_ports(),
            final(self).store().calls() == old(self).store().calls(),
            final(self).group().same_legs(&old(self).group()),
            final(self).group().same_generations(&old(self).group()),
            final(self).same_hub(old(self)),
            !old(self).store().remote_tasks().contains_key(from@) ==> final(self).group() == old(self).group(),
            final(self).appended(old(self), Self::packet_sends(*old(self), from@, data@)),
    {
        let ghost o = *self;
        let ghost fv = from@;
        let ghost dv = data@;
        self.store.add_backend(from.duplicate(), slot);
        let ghost w1 = *self;
        proof {
            assert(w1.outputs().subrange(0, o.outputs().len() as int) =~= o.outputs());
            Self::lemma_wf_carried(o, w1);
        }
        match self.store.get_task(&from) {
            Some(TaskId::Rtp(index)) => {
                let chan = self.rtp_group.task_channel(index);
                match chan {
                    Some((ch, active)) => {
                        if active {
                            let out = self.rtp_group.on_event(now, index, RtpInput::UdpPacket { data });
                            let ghost mid = *self;
                            proof {
                                o.group().lemma_live_below_capacity(index);
                                assert(mid.group().same_legs(&o.group())) by {
                                    assert forall|x: usize| #[trigger] mid.group().tasks().contains_key(x) implies {
                                        &&& mid.group().tasks()[x].same_leg(&o.group().tasks()[x])
                                        &&& mid.group().tasks()[x].state() == o.group().tasks()[x].state()
                                    } by {
                                        assert(o.group().tasks().contains_key(x));
                                    }
                                }
                                assert(mid.drained_ok()) by {
                                    assert forall|x: usize| #[trigger] mid.group().tasks().contains_key(x) implies mid.group().tasks()[x].pending().len() == 0 by {
                                        assert(o.group().tasks().contains_key(x));
                                    }
                                }
                                Self::lemma_wf_carried(o, mid);
                            }
                            match out {
                                Some(RtpOutput::Bus(BusChannelControl::Publish(c, exclude, packet))) => {
                                    let g = match self.rtp_group.generation_of(index) {
                                        Some(g) => g,
                                        None => 0,
                                    };
                                    let ghost t = o.group().tasks()[index];
                                    let ghost recips = recipients(o.hub().subscribers(t.channel()), Subscriber { slot: index, generation: o.group().generation(index) }, true);
                                    proof {
                                        assert(c == t.channel());
                                        assert(packet.from == t.leg_key());
                                        assert(packet.data@ == dv);
                                        lemma_recipients(o.hub().subscribers(t.channel()), Subscriber { slot: index, generation: o.group().generation(index) }, true);
                                        assert forall|j: int| 0 <= j < recips.len() implies o.group().tasks().contains_key(#[trigger] recips[j].slot) by {
                                            let sub = recips[j];
                                            assert(o.hub().subscribers(t.channel()).contains(sub));
                                            let k = choose|k: int| 0 <= k < o.hub().subscribers(t.channel()).len() && o.hub().subscribers(t.channel())[k] == sub;
                                            assert(o.hub().subscribers(t.channel())[k] == sub);
                                        }
                                        Self::lemma_fanout_same(o, mid, recips, t.leg_key(), dv);
                                        assert(mid.appended(&o, Seq::empty())) by {
                                            assert(mid.outputs().subrange(0, o.outputs().len() as int) =~= o.outputs());
                                        }
                                    }
                                    self.fan_out(now, c, Subscriber { slot: index, generation: g }, exclude, packet.from, &packet.data);
                                    proof {
                                        assert(Seq::<(usize, (Seq<char>, u16), Seq<u8>)>::empty() + Self::packet_sends(o, fv, dv) == Self::packet_sends(o, fv, dv));
                                        Self::lemma_appended_trans(o, mid, *self, Seq::empty(), Self::packet_sends(o, fv, dv));
                                    }
                                },
                                _ => {
                                    // an active task with nothing waiting answers a payload
                                    // from its socket with exactly that publication
                                    proof {
                                        assert(false);
                                    }
                                },
                            }
                        }
                    },
                    None => {},
                }
            },
            None => {},
        }
        proof {
            assert(self.outputs().subrange(0, o.outputs().len() as int) =~= o.outputs());
        }
    }

    /// The backend bound a socket on `addr` as `slot`: the task waiting for
    /// that address records the socket and, if it was pending, becomes active
    /// and joins its call's channel.
    pub fn on_bind_result(&mut self, now: u64, addr: NetAddr, slot: usize)
        requires
            old(self).wf(),
        ensures
            final(self).wf(),
            final(self).outputs() == old(self).outputs(),
            final(self).store().pool() == old(self).store().pool(),
            final(self).store().task_ports() == old(self).store().task_ports(),
            final(self).store().calls() == old(self).store().calls(),
            final(self).group().same_generations(&old(self).group()),
            final(self).group().tasks().dom() == old(self).group().tasks().dom(),
            !old(self).store().local_tasks().contains_key(addr@) ==> final(self).unchanged(old(self)),
            old(self).store().local_tasks().contains_key(addr@) ==> {
                let i = old(self).store().local_tasks()[addr@];
                let t = old(self).group().tasks()[i];
                &&& final(self).store().task_slots() == old(self).store().task_slots().insert(i, slot)
                &&& old(self).group().tasks().contains_key(i) && t.state() == RtpState::Pending ==> {
                    &&& final(self).group().tasks()[i].state() == RtpState::Active
                    &&& final(self).group().tasks()[i].same_leg(&t)
                    &&& final(self).hub().subscribers(t.channel()).contains(
                        Subscriber { slot: i, generation: old(self).group().generation(i) },
                    )
                }
            },
    {
        let ghost o = *self;
        match self.store.get_task_by_addr(&addr) {
            Some(TaskId::Rtp(index)) => {
                self.store.save_slot_task(TaskId::Rtp(index), slot);
                let out = self.rtp_group.on_bind_confirmed(now, index);
                let ghost mid = *self;
                match out {
                    Some(RtpOutput::Bus(BusChannelControl::Subscribe(ch))) => {
                        let g = match self.rtp_group.generation_of(index) {
                            Some(g) => g,
                            None => 0,
                        };
                        proof {
                            o.group().lemma_live_below_capacity(index);
                        }
                        self.hub.subcribe(ch, Subscriber { slot: index, generation: g });
                    },
                    _ => {},
                }
                proof {
                    let t = o.group().tasks()[index];
                    assert forall|i: usize| #[trigger] self.group().tasks().contains_key(i) implies self.group().tasks()[i].port()
                        == self.store().task_ports()[i] by {
                        assert(o.group().tasks().contains_key(i));
                    }
                    assert forall|k: u64, j: int|
                        self.store().calls().contains_key(k) && 0 <= j < self.store().calls()[k].len() implies {
                            let s = #[trigger] self.store().calls()[k][j].slot();
                            &&& self.group().tasks().contains_key(s)
                            &&& self.group().tasks()[s].call_key() == k
                        } by {
                        let s = o.store().calls()[k][j].slot();
                        assert(o.group().tasks().contains_key(s));
                    }
                    assert forall|x: usize| #[trigger] self.group().tasks().contains_key(x) implies self.group().tasks()[x].pending().len() == 0 by {
                        assert(o.group().tasks().contains_key(x));
                    }
                    assert forall|c: ChannelId, j: int| 0 <= j < self.hub().subscribers(c).len() implies {
                        let sub = #[trigger] self.hub().subscribers(c)[j];
                        &&& self.group().tasks().contains_key(sub.slot)
                        &&& self.group().generation(sub.slot) == sub.generation
                        &&& self.group().tasks()[sub.slot].channel() == c
                        &&& self.group().tasks()[sub.slot].state() == RtpState::Active
                    } by {
                        let sub = self.hub().subscribers(c)[j];
                        if o.hub().subscribers(c).contains(sub) {
                            let k = choose|k: int| 0 <= k < o.hub().subscribers(c).len() && o.hub().subscribers(c)[k] == sub;
                            assert(o.hub().subscribers(c)[k] == sub);
                            o.group().lemma_live_below_capacity(sub.slot);
                            if sub.slot == index {
                                assert(o.group().tasks()[index].state() == RtpState::Active);
                            }
                        } else {
                            assert(o.group().tasks().contains_key(index));
                            assert(sub == Subscriber { slot: index, generation: o.group().generation(index) });
                        }
                    }
                    if o.group().tasks().contains_key(index) && t.state() == RtpState::Pending {
                        assert(self.hub().subscribers(t.channel())[self.hub().subscribers(t.channel()).len() - 1] == Subscriber { slot: index, generation: o.group().generation(index) });
                    }
                    assert forall|x: usize|
                        #[trigger] self.group().tasks().contains_key(x) && self.group().tasks()[x].state() == RtpState::Active
                            implies self.hub().subscribers(self.group().tasks()[x].channel()).contains(
                            Subscriber { slot: x, generation: self.group().generation(x) },
                        ) by {
                        let tx = self.group().tasks()[x];
                        let me = Subscriber { slot: x, generation: self.group().generation(x) };
                        assert(o.group().tasks().contains_key(x));
                        o.group().lemma_live_below_capacity(x);
                        if x == index && o.group().tasks()[x].state() == RtpState::Pending {
                            assert(self.hub().subscribers(t.channel())[self.hub().subscribers(t.channel()).len() - 1] == me);
                        } else {
                            assert(o.hub().subscribers(tx.channel()).contains(me));
                            let k = choose|k: int| 0 <= k < o.hub().subscribers(tx.channel()).len() && o.hub().subscribers(tx.channel())[k] == me;
                            if self.hub().subscribers(tx.channel()) != o.hub().subscribers(tx.channel()) {
                                assert(self.hub().subscribers(tx.channel())[k] == me);
                            }
                        }
                    }
                }
            },
            None => {
                proof {
                    assert(self.store().same_tables(&o.store()));
                }
            },
        }
    }

    /// Carries out an effect asked for by the task in `index`: a send goes to
    /// the backend on the task's socket; a subscription or publication is
    /// applied to the task's own call channel, and only while the task is
    /// active; a destroyed task is reported.
    pub fn process_rtp_out(&mut self, now: u64, index: usize, out: RtpOutput)
        requires
            old(self).wf(),
        ensures
            final(self).wf(),
            final(self).store() == old(self).store(),
            final(self).group().same_legs(&old(self).group()),
            final(self).group().same_generations(&old(self).group()),
            final(self).outputs().subrange(0, old(self).outputs().len() as int) == old(self).outputs(),
            old(self).outputs().len() <= final(self).outputs().len(),
            ({
                let live_active = old(self).group().tasks().contains_key(index) && old(self).group().tasks()[index].state()
                    == RtpState::Active;
                let me = Subscriber { slot: index, generation: old(self).group().generation(index) };
                match out {
                    RtpOutput::Destroy(_) => final(self).outputs() == old(self).outputs().push(
                        WorkerOutput::Destroy(TaskId::Rtp(index)),
                    ),
                    RtpOutput::Forward { to, data } => final(self).appended(
                        old(self),
                        if old(self).store().task_slots().contains_key(index) {
                            seq![(old(self).store().task_slots()[index], to@, data@)]
                        } else {
                            Seq::empty()
                        },
                    ),
                    RtpOutput::Bus(BusChannelControl::Subscribe(c)) => {
                        &&& final(self).outputs() == old(self).outputs()
                        &&& (live_active && old(self).group().tasks()[index].channel() == c)
                            ==> final(self).hub().subscribers(c).contains(me)
                    },
                    RtpOutput::Bus(BusChannelControl::Publish(c, exclude, packet)) => if live_active
                        && old(self).group().tasks()[index].channel() == c {
                        final(self).appended(
                            old(self),
                            Self::fanout(*old(self), recipients(old(self).hub().subscribers(c), me, exclude), packet.from, packet.data@),
                        )
                    } else {
                        final(self).outputs() == old(self).outputs()
                    },
                }
            }),
    {
        let ghost o = *self;
        proof {
            if o.group().tasks().contains_key(index) {
                o.group().lemma_live_below_capacity(index);
            }
        }
        let g = match self.rtp_group.generation_of(index) {
            Some(g) => g,
            None => 0,
        };
        let me = Subscriber { slot: index, generation: g };
        match out {
            RtpOutput::Destroy(_) => {
                self.output.push_back(WorkerOutput::Destroy(TaskId::Rtp(index)));
                proof {
                    assert(self.outputs().subrange(0, o.outputs().len() as int) =~= o.outputs());
                }
            },
            RtpOutput::Forward { to, data } => {
                self.emit_forward(index, to, data);
            },
            RtpOutput::Bus(control) => {
                let own = self.rtp_group.task_channel(index);
                match (own, control) {
                    (Some((ch, true)), BusChannelControl::Subscribe(c)) => {
                        if ch == c {
                            proof {
                                o.group().lemma_live_below_capacity(index);
                            }
                            self.hub.subcribe(c, me);
                            proof {
                                assert forall|cc: ChannelId, j: int| 0 <= j < self.hub().subscribers(cc).len() implies {
                                    let sub = #[trigger] self.hub().subscribers(cc)[j];
                                    &&& self.group().tasks().contains_key(sub.slot)
                                    &&& self.group().generation(sub.slot) == sub.generation
                                    &&& self.group().tasks()[sub.slot].channel() == cc
                                    &&& self.group().tasks()[sub.slot].state() == RtpState::Active
                                } by {
                                    let sub = self.hub().subscribers(cc)[j];
                                    if o.hub().subscribers(cc).contains(sub) {
                                        let k = choose|k: int| 0 <= k < o.hub().subscribers(cc).len() && o.hub().subscribers(cc)[k] == sub;
                                        assert(o.hub().subscribers(cc)[k] == sub);
                                    }
                                }
                            }
                        }
                        proof {
                            assert(self.outputs().subrange(0, o.outputs().len() as int) =~= o.outputs());
                        }
                    },
                    (Some((ch, true)), BusChannelControl::Publish(c, exclude, packet)) => {
                        if ch == c {
                            self.fan_out(now, c, me, exclude, packet.from, &packet.data);
                        } else {
                            proof {
                                assert(self.outputs().subrange(0, o.outputs().len() as int) =~= o.outputs());
                            }
                        }
                    },
                    _ => {
                        proof {
                            assert(self.outputs().subrange(0, o.outputs().len() as int) =~= o.outputs());
                        }
                    },
                }
            },
        }
    }

    /// What `new_leg` promises, with its outcome as a command result.
    pub open spec fn call_handled(&self, o: &RtpEngineMediaWorker, call_id: Seq<char>, leg_id: Seq<char>, sdp: Seq<char>, res: MediaRpcResult) -> bool {
        &&& o.store().pool().len() == 0 ==> res is Error && res->Error_0@ == no_port_text() && self.unchanged(o)
        &&& o.store().pool().len() > 0 && o.collides(call_id) ==> res is Error && res->Error_0@ == collision_text()
            && self.unchanged(o)
        &&& o.store().pool().len() > 0 && !o.collides(call_id) && offer_address(sdp) is Err ==> res is Error
            && res->Error_0@ == offer_address(sdp)->Err_0 && self.unchanged(o)
        &&& o.store().pool().len() > 0 && !o.collides(call_id) && offer_address(sdp) is Ok && o.group().capacity()
            < usize::MAX ==> res is Call && res->Call_0@ == answer_text(
            offer_origin(sdp),
            o.ip(),
            o.store().pool()[0] as int,
            o.store().pool()[0] as int,
        ) && self.store().call_names() == o.store().call_names().insert(
            key_of(call_id),
            call_id,
        ) && exists|slot: usize| #[trigger] self.admitted(o, key_of(call_id), key_of(leg_id), offer_address(sdp)->Ok_0, slot)
        &&& o.store().pool().len() > 0 && !o.collides(call_id) && offer_address(sdp) is Ok && o.group().capacity()
            == usize::MAX ==> res is Error && res->Error_0@ == no_port_text() && self.unchanged(o)
    }

    /// Answers a command: `Ping` with `Pong`; `Call` admits a leg and answers
    /// with the generated session description or the error; `End` ends the
    /// call and answers `End`.
    pub fn process_rpc_request(&mut self, rpc: MediaRpcRequest) -> (r: MediaRpcResponse)
        requires
            old(self).wf(),
        ensures
            final(self).wf(),
            r.id == rpc.id,
            match rpc.cmd {
                MediaRpcCmd::Ping => r.res == MediaRpcResult::Pong && final(self).unchanged(old(self)),
                MediaRpcCmd::Call(call_id, leg_id, sdp) => final(self).call_handled(old(self), call_id@, leg_id@, sdp@, r.res),
                MediaRpcCmd::End(call_id) => r.res == MediaRpcResult::End && final(self).ended(old(self), key_of(call_id@)),
            },
    {
        match rpc.cmd {
            MediaRpcCmd::Call(call_id, leg_id, sdp) => {
                let ghost (c, l, d) = (call_id@, leg_id@, sdp@);
                let res = match self.new_leg(call_id, leg_id, sdp) {
                    Ok(answer) => MediaRpcResult::Call(answer),
                    Err(err) => MediaRpcResult::Error(err),
                };
                proof {
                    if old(self).store().pool().len() > 0 && !old(self).collides(c) && offer_address(d) is Ok && old(self).group().capacity() < usize::MAX {
                        let w = choose|slot: usize| #[trigger] self.admitted(old(self), key_of(c), key_of(l), offer_address(d)->Ok_0, slot);
                        assert(self.admitted(old(self), key_of(c), key_of(l), offer_address(d)->Ok_0, w));
                    }
                }
                MediaRpcResponse { id: rpc.id, res }
            },
            MediaRpcCmd::End(call_id) => {
                self.process_end_call(call_id.as_str());
                MediaRpcResponse { id: rpc.id, res: MediaRpcResult::End }
            },
            MediaRpcCmd::Ping => {
                MediaRpcResponse { id: rpc.id, res: MediaRpcResult::Pong }
            },
        }
    }

    /// Takes the oldest queued effect.
    pub fn pop_output(&mut self, now: u64) -> (r: Option<WorkerOutput>)
        requires
            old(self).wf(),
        ensures
            final(self).wf(),
            final(self).store() == old(self).store(),
            final(self).group() == old(self).group(),
            final(self).same_hub(old(self)),
            old(self).outputs().len() == 0 ==> r is None && final(self).outputs() == old(self).outputs(),
            old(self).outputs().len() > 0 ==> r == Some(old(self).outputs()[0]) && final(self).outputs()
                == old(self).outputs().drop_first(),
    {
        self.output.pop_front()
    }

    /// Takes the oldest queued effect, or else one that a task surfaces on
    /// its deadline.
    pub fn on_tick(&mut self, now: u64) -> (r: Option<WorkerOutput>)
        requires
            old(self).wf(),
        ensures
            final(self).wf(),
            final(self).store() == old(self).store(),
            old(self).outputs().len() > 0 ==> r == Some(old(self).outputs()[0]) && final(self).outputs()
                == old(self).outputs().drop_first() && final(self).group() == old(self).group(),
            old(self).outputs().len() == 0 ==> r is None && final(self).outputs() == old(self).outputs()
                && final(self).same_relay(old(self)),
    {
        if self.output.len() > 0 {
            return self.output.pop_front();
        }
        let ghost o = *self;
        match self.rtp_group.on_tick(now) {
            Some((index, out)) => {
                proof {
                    assert(self.drained_ok()) by {
                        assert forall|x: usize| #[trigger] self.group().tasks().contains_key(x) implies self.group().tasks()[x].pending().len() == 0 by {
                            assert(o.group().tasks().contains_key(x));
                        }
                    }
                    Self::lemma_wf_carried(o, *self);
                }
                self.process_rtp_out(now, index, out);
                self.output.pop_front()
            },
            None => {
                proof {
                    assert(self.drained_ok()) by {
                        assert forall|x: usize| #[trigger] self.group().tasks().contains_key(x) implies self.group().tasks()[x].pending().len() == 0 by {
                            assert(o.group().tasks().contains_key(x));
                        }
                    }
                    Self::lemma_wf_carried(o, *self);
                }
                None
            },
        }
    }

    /// The number of live tasks.
    pub fn tasks(&self) -> (r: usize)
        ensures
            r == self.group().live_count(),
    {
        self.rtp_group.tasks_count()
    }

    /// Takes one input. A command is answered at once; backend events only
    /// queue their effects, which `pop_output` drains. A failed bind is
    /// dropped: nothing reports it to the caller of the command.
    pub fn on_event(&mut self, now: u64, event: WorkerInput) -> (r: Option<WorkerOutput>)
        requires
            old(self).wf(),
        ensures
            final(self).wf(),
            match event {
                WorkerInput::Ext(ExtInput::Rpc(req)) => r matches Some(WorkerOutput::Ext(ExtOut::Rpc(resp))) && resp.id
                    == req.id && match req.cmd {
                    MediaRpcCmd::Ping => resp.res == MediaRpcResult::Pong && final(self).unchanged(old(self)),
                    MediaRpcCmd::Call(call_id, leg_id, sdp) => final(self).call_handled(
                        old(self),
                        call_id@,
                        leg_id@,
                        sdp@,
                        resp.res,
                    ),
                    MediaRpcCmd::End(call_id) => resp.res == MediaRpcResult::End && final(self).ended(
                        old(self),
                        key_of(call_id@),
                    ),
                },
                WorkerInput::Net(BackendIncoming::UdpListenResult { bind, result }) => r is None && match result {
                    Ok((addr, slot)) => {
                        &&& final(self).outputs() == old(self).outputs()
                        &&& !old(self).store().local_tasks().contains_key(addr@) ==> final(self).unchanged(old(self))
                        &&& old(self).store().local_tasks().contains_key(addr@) ==> final(self).store().task_slots()
                            == old(self).store().task_slots().insert(old(self).store().local_tasks()[addr@], slot)
                    },
                    Err(_) => final(self).unchanged(old(self)),
                },
                WorkerInput::Net(BackendIncoming::UdpPacket { slot, from, data }) => {
                    &&& r is None
                    &&& final(self).store().backends() == old(self).store().backends().insert(from@, slot)
                    &&& final(self).store().pool() == old(self).store().pool()
                    &&& final(self).store().remote_tasks() == old(self).store().remote_tasks()
                    &&& final(self).store().task_remotes() == old(self).store().task_remotes()
                    &&& final(self).store().local_tasks() == old(self).store().local_tasks()
                    &&& final(self).store().task_slots() == old(self).store().task_slots()
                    &&& final(self).store().task_ports() == old(self).store().task_ports()
                    &&& final(self).store().calls() == old(self).store().calls()
                    &&& final(self).group().same_legs(&old(self).group())
                    &&& final(self).group().same_generations(&old(self).group())
                    &&& final(self).same_hub(old(self))
                    &&& !old(self).store().remote_tasks().contains_key(from@) ==> final(self).group() == old(self).group()
                    &&& final(self).appended(old(self), Self::packet_sends(*old(self), from@, data@))
                },
            },
    {
        match event {
            WorkerInput::Net(BackendIncoming::UdpListenResult { bind, result }) => {
                match result {
                    Ok((addr, slot)) => {
                        self.on_bind_result(now, addr, slot);
                    },
                    Err(_) => {},
                }
                None
            },
            WorkerInput::Net(BackendIncoming::UdpPacket { slot, from, data }) => {
                self.on_backend_packet(now, slot, from, data);
                None
            },
            WorkerInput::Ext(ExtInput::Rpc(req)) => {
                let ghost cmd = req.cmd;
                let resp = self.process_rpc_request(req);
                proof {
                    if cmd is Call {
                        let (c, l, d) = (cmd->Call_0@, cmd->Call_1@, cmd->Call_2@);
                        if old(self).store().pool().len() > 0 && !old(self).collides(c) && offer_address(d) is Ok && old(self).group().capacity() < usize::MAX {
                            let w = choose|slot: usize| #[trigger] self.admitted(old(self), key_of(c), key_of(l), offer_address(d)->Ok_0, slot);
                            assert(self.admitted(old(self), key_of(c), key_of(l), offer_address(d)->Ok_0, w));
                        }
                    }
                }
                Some(WorkerOutput::Ext(ExtOut::Rpc(resp)))
            },
        }
    }
}

} // verus!

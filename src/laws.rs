use vstd::prelude::*;

use crate::hub::{lemma_recipients, lemma_recipients_distinct, recipients, Subscriber};
use crate::ids::key_of;
use crate::rpc::MediaRpcResult;
use crate::session::{answer_text, offer_address, offer_origin};
use crate::store::{ports_of, slots_of};
use crate::task::{RtpInput, RtpState, RtpTask};
use crate::worker::{no_port_text, RtpEngineMediaWorker};

verus! {

/// Admitting legs one after another, as long as ports are free, takes the
/// first free ports in order, each once: after `n` admissions the pool has
/// lost exactly its first `n` ports, which are pairwise distinct, and the
/// `i`-th new leg holds the `i`-th of them.
pub proof fn lemma_calls_take_distinct_ports(
    ws: Seq<RtpEngineMediaWorker>,
    legs: Seq<(u64, u64, (Seq<char>, u16))>,
    slots: Seq<usize>,
)
    requires
        ws.len() == legs.len() + 1,
        slots.len() == legs.len(),
        ws[0].wf(),
        forall|i: int|
            0 <= i < legs.len() ==> #[trigger] ws[i + 1].admitted(&ws[i], legs[i].0, legs[i].1, legs[i].2, slots[i]),
    ensures
        ws[0].store().pool().len() >= legs.len(),
        ws.last().store().pool() == ws[0].store().pool().subrange(legs.len() as int, ws[0].store().pool().len() as int),
        ws.last().store().pool().len() == ws[0].store().pool().len() - legs.len(),
        forall|i: int| 0 <= i < legs.len() ==> #[trigger] ws[i + 1].group().tasks()[slots[i]].port() == ws[0].store().pool()[i],
        forall|i: int, j: int| 0 <= i < j < legs.len() ==> ws[0].store().pool()[i] != ws[0].store().pool()[j],
    decreases legs.len(),
{
    ws[0].store().lemma_pool_distinct();
    let pool0 = ws[0].store().pool();
    if legs.len() > 0 {
        let n = legs.len() - 1;
        let ws2 = ws.drop_last();
        assert forall|i: int| 0 <= i < legs.drop_last().len() implies #[trigger] ws2[i + 1].admitted(
            &ws2[i],
            legs.drop_last()[i].0,
            legs.drop_last()[i].1,
            legs.drop_last()[i].2,
            slots.drop_last()[i],
        ) by {
            assert(ws[i + 1].admitted(&ws[i], legs[i].0, legs[i].1, legs[i].2, slots[i]));
        }
        lemma_calls_take_distinct_ports(ws2, legs.drop_last(), slots.drop_last());
        assert(ws2.last() == ws[n]);
        assert(ws[n + 1].admitted(&ws[n], legs[n].0, legs[n].1, legs[n].2, slots[n]));
        assert(ws.last() == ws[n + 1]);
        assert(ws[n].store().pool().len() > 0);
        assert(ws[n + 1].store().pool() =~= pool0.subrange(legs.len() as int, pool0.len() as int));
        assert forall|i: int| 0 <= i < legs.len() implies #[trigger] ws[i + 1].group().tasks()[slots[i]].port() == pool0[i] by {
            if i < n {
                assert(ws2[i + 1].group().tasks()[slots.drop_last()[i]].port() == pool0[i]);
            } else {
                assert(ws[n].store().pool()[0] == pool0[n]);
            }
        }
    }
}

/// A call while no port is free is refused with "No available port", and
/// nothing changes.
pub proof fn lemma_call_without_port(
    w: RtpEngineMediaWorker,
    w2: RtpEngineMediaWorker,
    call_id: Seq<char>,
    leg_id: Seq<char>,
    sdp: Seq<char>,
    res: MediaRpcResult,
)
    requires
        w.store().pool().len() == 0,
        w2.call_handled(&w, call_id, leg_id, sdp, res),
    ensures
        res is Error,
        res->Error_0@ == no_port_text(),
        w2.store().pool() == w.store().pool(),
        w2.store().same_tables(&w.store()),
        w2.group().tasks() == w.group().tasks(),
        w2.outputs() == w.outputs(),
{
}

/// Ending a call frees exactly the ports its legs held: the pool gains
/// those and no others, every other task keeps its port, and the call is
/// gone, so ending it again changes nothing.
pub proof fn lemma_end_frees_call_ports(
    w0: RtpEngineMediaWorker,
    w1: RtpEngineMediaWorker,
    w2: RtpEngineMediaWorker,
    call_key: u64,
)
    requires
        w1.ended(&w0, call_key),
        w2.ended(&w1, call_key),
    ensures
        !w1.store().calls().contains_key(call_key),
        w2.unchanged(&w1),
        w0.store().calls().contains_key(call_key) ==> {
            let legs = w0.store().calls()[call_key];
            &&& w1.store().pool().to_set() == w0.store().pool().to_set() + ports_of(w0.store().task_ports(), legs)
            &&& forall|t: usize| #[trigger] w0.store().task_ports().contains_key(t) && !slots_of(legs).contains(t)
                ==> w1.store().task_ports().contains_key(t) && w1.store().task_ports()[t] == w0.store().task_ports()[t]
            &&& forall|t: usize| #[trigger] w1.store().task_ports().contains_key(t) ==> !slots_of(legs).contains(t)
        },
{
}

/// A task never forwards a payload its own leg published.
pub proof fn lemma_task_drops_own_payload(t: RtpTask, data: Vec<u8>)
    ensures
        t.reaction(RtpInput::Bus { from: t.leg_key(), data }).len() == 0,
{
}

/// The packets a fan-out sends are for recipients of other legs, each to the
/// recipient's remote address; every such recipient with a bound socket gets one.
pub proof fn lemma_fanout_members(w: RtpEngineMediaWorker, recips: Seq<Subscriber>, leg: u64, data: Seq<u8>)
    ensures
        forall|j: int| 0 <= j < RtpEngineMediaWorker::fanout(w, recips, leg, data).len() ==> exists|k: int|
            0 <= k < recips.len() && #[trigger] RtpEngineMediaWorker::fanout(w, recips, leg, data)[j] == (
            w.store().task_slots()[recips[k].slot],
            w.group().tasks()[recips[k].slot].remote(),
            data,
        ) && w.group().tasks()[recips[k].slot].leg_key() != leg,
        forall|k: int|
            0 <= k < recips.len() && w.group().tasks()[#[trigger] recips[k].slot].leg_key() != leg
                && w.store().task_slots().contains_key(recips[k].slot) ==> RtpEngineMediaWorker::fanout(
                w,
                recips,
                leg,
                data,
            ).contains((w.store().task_slots()[recips[k].slot], w.group().tasks()[recips[k].slot].remote(), data)),
    decreases recips.len(),
{
    if recips.len() > 0 {
        let rest = recips.drop_last();
        lemma_fanout_members(w, rest, leg, data);
        let f = RtpEngineMediaWorker::fanout(w, recips, leg, data);
        let f0 = RtpEngineMediaWorker::fanout(w, rest, leg, data);
        let last = recips.len() - 1;
        assert(recips.last() == recips[last]);
        assert forall|j: int| 0 <= j < f.len() implies exists|k: int|
            0 <= k < recips.len() && #[trigger] f[j] == (
            w.store().task_slots()[recips[k].slot],
            w.group().tasks()[recips[k].slot].remote(),
            data,
        ) && w.group().tasks()[recips[k].slot].leg_key() != leg by {
            if j < f0.len() {
                assert(f[j] == f0[j]);
                let k = choose|k: int| 0 <= k < rest.len() && #[trigger] f0[j] == (
                    w.store().task_slots()[rest[k].slot],
                    w.group().tasks()[rest[k].slot].remote(),
                    data,
                ) && w.group().tasks()[rest[k].slot].leg_key() != leg;
                assert(rest[k] == recips[k]);
            } else {
                assert(f[j] == (w.store().task_slots()[recips[last].slot], w.group().tasks()[recips[last].slot].remote(), data));
            }
        }
        assert forall|k: int|
            0 <= k < recips.len() && w.group().tasks()[#[trigger] recips[k].slot].leg_key() != leg
                && w.store().task_slots().contains_key(recips[k].slot) implies f.contains(
            (w.store().task_slots()[recips[k].slot], w.group().tasks()[recips[k].slot].remote(), data),
        ) by {
            let x = (w.store().task_slots()[recips[k].slot], w.group().tasks()[recips[k].slot].remote(), data);
            if k < last {
                assert(rest[k] == recips[k]);
                assert(f0.contains(x));
                let m = choose|m: int| 0 <= m < f0.len() && f0[m] == x;
                assert(f[m] == x);
            } else {
                assert(f[f.len() - 1] == x);
            }
        }
    }
}

/// The task that a packet from `from` reaches, and the recipients of its publication.
pub open spec fn sender_recipients(w: RtpEngineMediaWorker, from: (Seq<char>, u16)) -> Seq<Subscriber> {
    let i = w.store().remote_tasks()[from];
    recipients(
        w.hub().subscribers(w.group().tasks()[i].channel()),
        Subscriber { slot: i, generation: w.group().generation(i) },
        true,
    )
}

/// The subscriber that stands for the task a packet from `from` is delivered to.
pub open spec fn sender(w: RtpEngineMediaWorker, from: (Seq<char>, u16)) -> Subscriber {
    let i = w.store().remote_tasks()[from];
    Subscriber { slot: i, generation: w.group().generation(i) }
}

/// The active task that a packet from `from` is delivered to.
pub open spec fn has_active_sender(w: RtpEngineMediaWorker, from: (Seq<char>, u16)) -> bool {
    &&& w.store().remote_tasks().contains_key(from)
    &&& w.group().tasks().contains_key(w.store().remote_tasks()[from])
    &&& w.group().tasks()[w.store().remote_tasks()[from]].state() == RtpState::Active
}

/// A payload a leg publishes never comes back to it: the sender is not among
/// the recipients of its publication, each recipient is a live task in
/// another slot, and the packets sent are those of the fan-out to them,
/// which skips every task of the sender's own leg.
pub proof fn lemma_no_self_delivery(w: RtpEngineMediaWorker, from: (Seq<char>, u16), data: Seq<u8>)
    requires
        w.wf(),
        has_active_sender(w, from),
    ensures
        !sender_recipients(w, from).contains(sender(w, from)),
        forall|k: int|
            0 <= k < sender_recipients(w, from).len() ==> #[trigger] sender_recipients(w, from)[k].slot
                != sender(w, from).slot && w.group().tasks().contains_key(sender_recipients(w, from)[k].slot),
        RtpEngineMediaWorker::packet_sends(w, from, data) == RtpEngineMediaWorker::fanout(
            w,
            sender_recipients(w, from),
            w.group().tasks()[sender(w, from).slot].leg_key(),
            data,
        ),
{
    let i = w.store().remote_tasks()[from];
    let t = w.group().tasks()[i];
    let me = Subscriber { slot: i, generation: w.group().generation(i) };
    let subs = w.hub().subscribers(t.channel());
    let recips = sender_recipients(w, from);
    lemma_recipients(subs, me, true);
    assert(!recips.contains(me)) by {
        if recips.contains(me) {
            let k = choose|k: int| 0 <= k < recips.len() && recips[k] == me;
            assert(recips[k] == me);
        }
    }
    assert forall|k: int| 0 <= k < recips.len() implies #[trigger] recips[k].slot != i && w.group().tasks().contains_key(recips[k].slot) by {
        let r = recips[k];
        assert(subs.contains(r));
        let m = choose|m: int| 0 <= m < subs.len() && subs[m] == r;
        assert(subs[m] == r);
        assert(w.group().generation(r.slot) == r.generation);
    }
}

/// A packet from a leg reaches the other legs of its call and no leg of
/// another call: each recipient of its publication is a task of the same
/// call and appears once, and every active task of that call that belongs
/// to another leg and has a bound socket gets the packet at its remote
/// address.
pub proof fn lemma_fan_out_stays_in_call(w: RtpEngineMediaWorker, from: (Seq<char>, u16), data: Seq<u8>)
    requires
        w.wf(),
        has_active_sender(w, from),
    ensures
        sender_recipients(w, from).no_duplicates(),
        forall|k: int|
            0 <= k < sender_recipients(w, from).len() ==> w.group().tasks()[#[trigger] sender_recipients(
                w,
                from,
            )[k].slot].call_key() == w.group().tasks()[sender(w, from).slot].call_key(),
        ({
            let i = w.store().remote_tasks()[from];
            let t = w.group().tasks()[i];
            let sends = RtpEngineMediaWorker::packet_sends(w, from, data);
            forall|s: usize|
                #[trigger] w.group().tasks().contains_key(s) && w.group().tasks()[s].call_key() == t.call_key()
                    && w.group().tasks()[s].state() == RtpState::Active && w.group().tasks()[s].leg_key() != t.leg_key()
                    && w.store().task_slots().contains_key(s) ==> sends.contains(
                    (w.store().task_slots()[s], w.group().tasks()[s].remote(), data),
                )
        }),
{
    let i = w.store().remote_tasks()[from];
    let t = w.group().tasks()[i];
    let me = Subscriber { slot: i, generation: w.group().generation(i) };
    let subs = w.hub().subscribers(t.channel());
    let recips = sender_recipients(w, from);
    lemma_recipients(subs, me, true);
    lemma_recipients_distinct(subs, me, true);
    lemma_fanout_members(w, recips, t.leg_key(), data);
    let sends = RtpEngineMediaWorker::packet_sends(w, from, data);
    assert(sends == RtpEngineMediaWorker::fanout(w, recips, t.leg_key(), data));
    assert forall|k: int| 0 <= k < recips.len() implies w.group().tasks()[#[trigger] recips[k].slot].call_key() == t.call_key() by {
        let r = recips[k];
        assert(subs.contains(r));
        let m = choose|m: int| 0 <= m < subs.len() && subs[m] == r;
        assert(subs[m] == r);
        assert(w.group().tasks()[r.slot].channel() == t.channel());
    }
    assert forall|sub: Subscriber|
        #[trigger] subs.contains(sub) && w.group().tasks()[sub.slot].leg_key() != t.leg_key()
            && w.store().task_slots().contains_key(sub.slot) implies sends.contains(
        (w.store().task_slots()[sub.slot], w.group().tasks()[sub.slot].remote(), data),
    ) by {
        let m = choose|m: int| 0 <= m < subs.len() && subs[m] == sub;
        assert(subs[m] == sub);
        assert(sub != me);
        lemma_recipients_keep(subs, me, m);
        let k = choose|k: int| 0 <= k < recips.len() && recips[k] == sub;
        assert(recips[k] == sub);
    }
    assert forall|s: usize|
        #[trigger] w.group().tasks().contains_key(s) && w.group().tasks()[s].call_key() == t.call_key()
            && w.group().tasks()[s].state() == RtpState::Active && w.group().tasks()[s].leg_key() != t.leg_key()
            && w.store().task_slots().contains_key(s) implies sends.contains(
        (w.store().task_slots()[s], w.group().tasks()[s].remote(), data),
    ) by {
        let sub = Subscriber { slot: s, generation: w.group().generation(s) };
        assert(w.group().tasks()[s].channel() == t.channel());
        assert(subs.contains(sub));
    }
}

/// A subscriber other than the excluded origin is a recipient.
pub proof fn lemma_recipients_keep(subs: Seq<Subscriber>, origin: Subscriber, m: int)
    requires
        0 <= m < subs.len(),
        subs[m] != origin,
    ensures
        recipients(subs, origin, true).contains(subs[m]),
    decreases subs.len(),
{
    let rest = recipients(subs.drop_last(), origin, true);
    if m < subs.len() - 1 {
        lemma_recipients_keep(subs.drop_last(), origin, m);
        assert(subs.drop_last()[m] == subs[m]);
        let k = choose|k: int| 0 <= k < rest.len() && rest[k] == subs[m];
        if subs.last() == origin {
        } else {
            assert(rest.push(subs.last())[k] == subs[m]);
        }
    } else {
        assert(subs.last() == subs[m]);
        assert(rest.push(subs.last())[rest.len() as int] == subs[m]);
    }
}

/// A leg admitted from an offer forwards to the address read from that
/// offer, and holds the port that was the first free one, in its task and
/// in the store alike.
pub proof fn lemma_admitted_leg_matches_offer(
    w: RtpEngineMediaWorker,
    w2: RtpEngineMediaWorker,
    call_id: Seq<char>,
    leg_id: Seq<char>,
    sdp: Seq<char>,
    slot: usize,
)
    requires
        offer_address(sdp) is Ok,
        w2.admitted(&w, key_of(call_id), key_of(leg_id), offer_address(sdp)->Ok_0, slot),
    ensures
        w2.group().tasks()[slot].remote() == offer_address(sdp)->Ok_0,
        w2.group().tasks()[slot].port() == w.store().pool()[0],
        w2.store().task_ports()[slot] == w.store().pool()[0],
        w2.store().task_remotes()[slot] == offer_address(sdp)->Ok_0,
{
}

/// A call admitted from a readable offer answers with the description whose
/// media line carries the allocated port (the first free one) as RTP and
/// RTCP port, and the leg forwards to the address read from the offer.
pub proof fn lemma_answer_round_trip(
    w: RtpEngineMediaWorker,
    w2: RtpEngineMediaWorker,
    call_id: Seq<char>,
    leg_id: Seq<char>,
    sdp: Seq<char>,
    res: MediaRpcResult,
)
    requires
        w2.call_handled(&w, call_id, leg_id, sdp, res),
        w.store().pool().len() > 0,
        !w.collides(call_id),
        offer_address(sdp) is Ok,
        w.group().capacity() < usize::MAX,
    ensures
        res is Call,
        res->Call_0@ == answer_text(offer_origin(sdp), w.ip(), w.store().pool()[0] as int, w.store().pool()[0] as int),
        exists|slot: usize|
            {
                &&& #[trigger] w2.group().tasks()[slot].port() == w.store().pool()[0]
                &&& w2.group().tasks()[slot].remote() == offer_address(sdp)->Ok_0
                &&& w2.admitted(&w, key_of(call_id), key_of(leg_id), offer_address(sdp)->Ok_0, slot)
            },
{
    let slot = choose|slot: usize| #[trigger] w2.admitted(&w, key_of(call_id), key_of(leg_id), offer_address(sdp)->Ok_0, slot);
    assert(w2.group().tasks()[slot].port() == w.store().pool()[0]);
}

} // verus!

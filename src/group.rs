use vstd::prelude::*;

use crate::ids::ChannelId;
use crate::task::{drained, RtpInput, RtpOutput, RtpState, RtpTask};

verus! {

/// Relay tasks by slot. A slot freed by a removal is reused by a later
/// add; each slot's generation grows at every removal, so that a reference
/// held across a removal can be told apart from the slot's new occupant.
///
/// sans-io-runtime has a `TaskGroup`, but it holds tasks through an impl of
/// the crate's `Task` trait and its contents cannot be stated; this group
/// holds `RtpTask`s directly and adds the generations.
pub struct RtpTaskGroup {
    slots: Vec<Option<RtpTask>>,
    generations: Vec<u64>,
    cursor: usize,
}

/// The generation that follows `g`.
pub open spec fn next_generation(g: u64) -> u64 {
    if g == u64::MAX {
        0
    } else {
        (g + 1) as u64
    }
}

/// The number of occupied slots.
pub open spec fn count_live(slots: Seq<Option<RtpTask>>) -> nat
    decreases slots.len(),
{
    if slots.len() == 0 {
        0
    } else {
        count_live(slots.drop_last()) + if slots.last() is Some {
            1nat
        } else {
            0nat
        }
    }
}

impl RtpTaskGroup {
    /// The number of live tasks.
    pub closed spec fn live_count(&self) -> nat {
        count_live(self.slots@)
    }

    /// Counts the live tasks.
    pub fn tasks_count(&self) -> (r: usize)
        ensures
            r == self.live_count(),
    {
        let mut n: usize = 0;
        let mut i: usize = 0;
        while i < self.slots.len()
            invariant
                i <= self.slots@.len(),
                n == count_live(self.slots@.take(i as int)),
                n <= i,
            decreases self.slots@.len() - i,
        {
            proof {
                assert(self.slots@.take(i + 1).drop_last() == self.slots@.take(i as int));
            }
            if self.slots[i].is_some() {
                n = n + 1;
            }
            i = i + 1;
        }
        assert(self.slots@.take(self.slots@.len() as int) == self.slots@);
        n
    }

    /// The live tasks by slot.
    pub closed spec fn tasks(&self) -> Map<usize, RtpTask> {
        Map::new(
            |i: usize| i < self.slots@.len() && self.slots@[i as int] is Some,
            |i: usize| self.slots@[i as int]->Some_0,
        )
    }

    /// The number of slots, live or free.
    pub closed spec fn capacity(&self) -> nat {
        self.slots@.len()
    }

    /// The generation of each slot.
    pub closed spec fn generation(&self, i: usize) -> u64 {
        self.generations@[i as int]
    }

    pub closed spec fn wf(&self) -> bool {
        &&& self.slots@.len() == self.generations@.len()
        &&& forall|i: int| 0 <= i < self.slots@.len() && #[trigger] self.slots@[i] is Some
            ==> self.slots@[i]->Some_0.wf()
    }

    /// Every slot has the same generation in `self` and `o`.
    pub open spec fn same_generations(&self, o: &RtpTaskGroup) -> bool {
        &&& self.capacity() == o.capacity()
        &&& forall|i: usize| i < self.capacity() ==> #[trigger] self.generation(i) == o.generation(i)
    }

    pub fn new() -> (r: RtpTaskGroup)
        ensures
            r.wf(),
            r.tasks().is_empty(),
            r.capacity() == 0,
    {
        let r = RtpTaskGroup { slots: Vec::new(), generations: Vec::new(), cursor: 0 };
        assert(r.tasks() =~= Map::<usize, RtpTask>::empty());
        r
    }

    proof fn lemma_wf_task(&self, i: usize)
        requires
            self.wf(),
            self.tasks().contains_key(i),
        ensures
            self.tasks()[i].wf(),
            i < self.capacity(),
    {
        assert(self.slots@[i as int] is Some);
    }

    /// A live slot is below the number of slots.
    pub proof fn lemma_live_below_capacity(&self, i: usize)
        requires
            self.tasks().contains_key(i),
        ensures
            i < self.capacity(),
    {
    }

    /// Puts a task in the first free slot, or in a new one.
    pub fn add_task(&mut self, task: RtpTask) -> (r: usize)
        requires
            old(self).wf(),
            task.wf(),
            old(self).capacity() < usize::MAX,
        ensures
            final(self).wf(),
            !old(self).tasks().contains_key(r),
            final(self).tasks() == old(self).tasks().insert(r, task),
            r < final(self).capacity(),
            r < old(self).capacity() ==> final(self).same_generations(old(self)),
            r >= old(self).capacity() ==> {
                &&& r == old(self).capacity()
                &&& final(self).capacity() == old(self).capacity() + 1
                &&& final(self).generation(r) == 0
                &&& forall|i: usize| i < old(self).capacity() ==> #[trigger] final(self).generation(i)
                    == old(self).generation(i)
            },
    {
        let mut i: usize = 0;
        while i < self.slots.len()
            invariant
                i <= self.slots@.len(),
                self.slots@ == old(self).slots@,
                self.generations@ == old(self).generations@,
                self.cursor == old(self).cursor,
                old(self).wf(),
                task.wf(),
                forall|j: int| 0 <= j < i ==> #[trigger] self.slots@[j] is Some,
            decreases self.slots@.len() - i,
        {
            if self.slots[i].is_none() {
                let ghost t = task;
                self.slots.set(i, Some(task));
                proof {
                    assert(self.tasks() =~= old(self).tasks().insert(i, t));
                }
                return i;
            }
            i = i + 1;
        }
        let ghost t = task;
        self.slots.push(Some(task));
        self.generations.push(0);
        proof {
            assert(self.tasks() =~= old(self).tasks().insert(i, t));
            assert(!old(self).tasks().contains_key(i));
        }
        i
    }

    /// The number of slots, live or free.
    pub fn slot_count(&self) -> (r: usize)
        ensures
            r == self.capacity(),
    {
        self.slots.len()
    }

    /// The generation of a slot, if the slot exists.
    pub fn generation_of(&self, index: usize) -> (r: Option<u64>)
        requires
            self.wf(),
        ensures
            r == (if index < self.capacity() {
                Some(self.generation(index))
            } else {
                None::<u64>
            }),
    {
        if index < self.generations.len() {
            Some(self.generations[index])
        } else {
            None
        }
    }

    /// Whether `(index, generation)` still names the live task of that slot.
    pub fn is_current(&self, index: usize, generation: u64) -> (r: bool)
        requires
            self.wf(),
        ensures
            r == (self.tasks().contains_key(index) && self.generation(index) == generation),
    {
        index < self.slots.len() && self.slots[index].is_some() && self.generations[index] == generation
    }

    /// The channel of the task in `index` and whether it is active, if the slot is live.
    pub fn task_channel(&self, index: usize) -> (r: Option<(ChannelId, bool)>)
        requires
            self.wf(),
        ensures
            r == (if self.tasks().contains_key(index) {
                Some((self.tasks()[index].channel(), self.tasks()[index].state() == RtpState::Active))
            } else {
                None::<(ChannelId, bool)>
            }),
    {
        if index < self.slots.len() {
            match &self.slots[index] {
                Some(t) => Some((ChannelId::Call(t.call()), t.is_active())),
                None => None,
            }
        } else {
            None
        }
    }

    /// Takes a task out of the group; its slot can be reused, under the next generation.
    pub fn remove_task(&mut self, index: usize) -> (r: Option<RtpTask>)
        requires
            old(self).wf(),
        ensures
            final(self).wf(),
            final(self).tasks() == old(self).tasks().remove(index),
            final(self).capacity() == old(self).capacity(),
            r == (if old(self).tasks().contains_key(index) {
                Some(old(self).tasks()[index])
            } else {
                None::<RtpTask>
            }),
            r matches Some(t) ==> t.wf(),
            forall|i: usize| i < final(self).capacity() && i != index ==> #[trigger] final(self).generation(i)
                == old(self).generation(i),
            old(self).tasks().contains_key(index) ==> final(self).generation(index) == next_generation(
                old(self).generation(index),
            ),
            !old(self).tasks().contains_key(index) ==> final(self).same_generations(old(self)),
    {
        if index >= self.slots.len() {
            assert(self.tasks() =~= old(self).tasks().remove(index));
            return None;
        }
        let mut cur: Option<RtpTask> = None;
        self.slots.set_and_swap(index, &mut cur);
        if cur.is_some() {
            let g = self.generations[index];
            let ng = if g == u64::MAX { 0 } else { g + 1 };
            self.generations.set(index, ng);
        }
        proof {
            assert(self.tasks() =~= old(self).tasks().remove(index));
            if cur is Some {
                old(self).lemma_wf_task(index);
            }
        }
        cur
    }

    /// The task in a slot after it reacted to `input`.
    pub open spec fn dispatched(&self, index: usize, input: RtpInput, next: RtpTask, r: Option<RtpOutput>) -> bool {
        let t = self.tasks()[index];
        &&& next.wf()
        &&& next.same_leg(&t)
        &&& next.state() == t.state()
        &&& (r, next.pending()) == drained(t.pending(), t.reaction(input))
    }

    /// Delivers an input to the task in `index`; an empty slot ignores it.
    pub fn on_event(&mut self, now: u64, index: usize, input: RtpInput) -> (r: Option<RtpOutput>)
        requires
            old(self).wf(),
        ensures
            final(self).wf(),
            final(self).same_generations(old(self)),
            final(self).tasks().dom() == old(self).tasks().dom(),
            !old(self).tasks().contains_key(index) ==> r is None && final(self).tasks() == old(self).tasks(),
            old(self).tasks().contains_key(index) ==> {
                &&& final(self).tasks() == old(self).tasks().insert(index, final(self).tasks()[index])
                &&& old(self).dispatched(index, input, final(self).tasks()[index], r)
            },
    {
        if index >= self.slots.len() {
            return None;
        }
        let mut cur: Option<RtpTask> = None;
        self.slots.set_and_swap(index, &mut cur);
        match cur {
            Some(mut t) => {
                proof {
                    old(self).lemma_wf_task(index);
                }
                let r = t.on_event(now, input);
                let ghost nt = t;
                self.slots.set(index, Some(t));
                proof {
                    assert(self.tasks() =~= old(self).tasks().insert(index, nt));
                }
                r
            },
            None => {
                self.slots.set(index, None);
                proof {
                    assert(self.slots@ =~= old(self).slots@);
                    assert(self.tasks() =~= old(self).tasks());
                }
                None
            },
        }
    }

    /// Tells the task in `index` that its socket is bound.
    pub fn on_bind_confirmed(&mut self, now: u64, index: usize) -> (r: Option<RtpOutput>)
        requires
            old(self).wf(),
        ensures
            final(self).wf(),
            final(self).same_generations(old(self)),
            final(self).tasks().dom() == old(self).tasks().dom(),
            !old(self).tasks().contains_key(index) ==> r is None && final(self).tasks() == old(self).tasks(),
            old(self).tasks().contains_key(index) ==> {
                let t = old(self).tasks()[index];
                let n = final(self).tasks()[index];
                &&& final(self).tasks() == old(self).tasks().insert(index, n)
                &&& n.wf()
                &&& n.same_leg(&t)
                &&& n.deadline() == t.deadline()
                &&& t.state() == RtpState::Pending ==> n.state() == RtpState::Active && (r, n.pending())
                    == drained(
                    t.pending(),
                    seq![RtpOutput::Bus(crate::task::BusChannelControl::Subscribe(t.channel()))],
                )
                &&& t.state() != RtpState::Pending ==> n.state() == t.state() && (r, n.pending())
                    == drained(t.pending(), Seq::<RtpOutput>::empty())
            },
    {
        if index >= self.slots.len() {
            return None;
        }
        let mut cur: Option<RtpTask> = None;
        self.slots.set_and_swap(index, &mut cur);
        match cur {
            Some(mut t) => {
                proof {
                    old(self).lemma_wf_task(index);
                }
                let r = t.on_bind_confirmed(now);
                let ghost nt = t;
                self.slots.set(index, Some(t));
                proof {
                    assert(self.tasks() =~= old(self).tasks().insert(index, nt));
                }
                r
            },
            None => {
                self.slots.set(index, None);
                proof {
                    assert(self.slots@ =~= old(self).slots@);
                    assert(self.tasks() =~= old(self).tasks());
                }
                None
            },
        }
    }

    /// Every task of `o` is in `self` for the same leg and in the same state.
    pub open spec fn same_legs(&self, o: &RtpTaskGroup) -> bool {
        &&& self.tasks().dom() == o.tasks().dom()
        &&& forall|i: usize| #[trigger] self.tasks().contains_key(i) ==> {
            &&& self.tasks()[i].same_leg(&o.tasks()[i])
            &&& self.tasks()[i].state() == o.tasks()[i].state()
        }
    }

    /// Ticks the live tasks in turn, starting after the one that last
    /// answered, and returns the first effect one of them surfaces.
    pub fn on_tick(&mut self, now: u64) -> (r: Option<(usize, RtpOutput)>)
        requires
            old(self).wf(),
        ensures
            final(self).wf(),
            final(self).same_generations(old(self)),
            final(self).same_legs(old(self)),
            r matches Some((i, _)) ==> old(self).tasks().contains_key(i),
            forall|i: usize| #[trigger] final(self).tasks().contains_key(i) && old(self).tasks()[i].pending().len() == 0
                ==> final(self).tasks()[i].pending().len() == 0,
            (forall|i: usize| #[trigger] old(self).tasks().contains_key(i) ==> old(self).tasks()[i].pending().len() == 0)
                ==> r is None,
            r matches Some((i, out)) ==> old(self).tasks()[i].pending().len() > 0 && out == old(self).tasks()[i].pending()[0],
    {
        let n = self.slots.len();
        if n == 0 {
            return None;
        }
        let start = self.cursor % n;
        let mut k: usize = 0;
        while k < n
            invariant
                n == self.slots@.len(),
                0 <= start < n,
                k <= n,
                self.generations@ == old(self).generations@,
                self.wf(),
                self.same_generations(old(self)),
                self.same_legs(old(self)),
                forall|i: usize| #[trigger] self.tasks().contains_key(i) && old(self).tasks()[i].pending().len() == 0
                    ==> self.tasks()[i].pending().len() == 0,
                forall|j: int|
                    0 <= j < n && !(if j >= start { j - start < k } else { j + n - start < k }) ==> #[trigger] self.slots@[j]
                        == old(self).slots@[j],
            decreases n - k,
        {
            let i = if k < n - start { start + k } else { k - (n - start) };
            let mut cur: Option<RtpTask> = None;
            let ghost before = *self;
            self.slots.set_and_swap(i, &mut cur);
            match cur {
                Some(mut t) => {
                    proof {
                        before.lemma_wf_task(i);
                    }
                    let out = t.on_tick(now);
                    self.slots.set(i, Some(t));
                    proof {
                        assert(self.tasks().dom() =~= before.tasks().dom());
                        assert forall|j: usize| #[trigger] self.tasks().contains_key(j) implies {
                            &&& self.tasks()[j].same_leg(&old(self).tasks()[j])
                            &&& self.tasks()[j].state() == old(self).tasks()[j].state()
                        } by {
                            assert(before.tasks().contains_key(j));
                        }
                        assert forall|j: usize| #[trigger] self.tasks().contains_key(j) && old(self).tasks()[j].pending().len() == 0
                            implies self.tasks()[j].pending().len() == 0 by {
                            assert(before.tasks().contains_key(j));
                        }
                        assert forall|j: int| 0 <= j < self.slots@.len() && #[trigger] self.slots@[j] is Some
                            implies self.slots@[j]->Some_0.wf() by {
                            if j != i {
                                assert(before.slots@[j] is Some);
                            }
                        }
                        assert forall|j: int|
                            0 <= j < n && !(if j >= start { j - start < k + 1 } else { j + n - start < k + 1 }) implies #[trigger] self.slots@[j]
                                == old(self).slots@[j] by {
                            assert(j != i);
                            assert(before.slots@[j] == old(self).slots@[j]);
                        }
                    }
                    match out {
                        Some(o) => {
                            self.cursor = if i + 1 < n { i + 1 } else { 0 };
                            proof {
                                assert(before.tasks().contains_key(i));
                                assert(before.slots@[i as int] == old(self).slots@[i as int]);
                            }
                            return Some((i, o));
                        },
                        None => {},
                    }
                },
                None => {
                    self.slots.set(i, None);
                    proof {
                        assert(self.slots@ =~= before.slots@);
                        assert forall|j: int|
                            0 <= j < n && !(if j >= start { j - start < k + 1 } else { j + n - start < k + 1 }) implies #[trigger] self.slots@[j]
                                == old(self).slots@[j] by {
                            assert(before.slots@[j] == old(self).slots@[j]);
                        }
                    }
                },
            }
            k = k + 1;
        }
        None
    }
}

} // verus!

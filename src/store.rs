use std::collections::{HashMap, VecDeque};

use vstd::prelude::*;

use crate::addr::{any_host, NetAddr};
use crate::addr_table::AddrTable;
use crate::ids::{PortRange, TaskId};

verus! {

broadcast use vstd::std_specs::hash::group_hash_axioms;

/// The ports `min..max`, in increasing order.
pub open spec fn port_seq(min: usize, max: usize) -> Seq<usize> {
    if min < max {
        Seq::new((max - min) as nat, |i: int| (min + i) as usize)
    } else {
        Seq::empty()
    }
}

/// The ports that the tasks of `tasks` hold in `ports`.
pub open spec fn ports_of(ports: Map<usize, usize>, tasks: Seq<TaskId>) -> Set<usize> {
    Set::new(
        |p: usize|
            exists|i: int|
                0 <= i < tasks.len() && ports.contains_key(#[trigger] tasks[i].slot())
                    && ports[tasks[i].slot()] == p,
    )
}

/// The slots of the tasks of `tasks`.
pub open spec fn slots_of(tasks: Seq<TaskId>) -> Set<usize> {
    Set::new(|s: usize| exists|i: int| 0 <= i < tasks.len() && #[trigger] tasks[i].slot() == s)
}

/// The port pool and the tables that correlate addresses, tasks, sockets and calls.
pub struct CallMediaStore {
    port_pool: VecDeque<usize>,
    /// remote forwarding address -> task slot
    addr_task_mapper: AddrTable,
    /// address -> backend socket slot
    addr_backend_mapper: AddrTable,
    /// task slot -> remote forwarding address
    task_addr_mapper: HashMap<usize, NetAddr>,
    /// local bind address -> task slot
    addr_leg_task: AddrTable,
    /// task slot -> backend socket slot
    task_slot: HashMap<usize, usize>,
    /// task slot -> the port it holds
    task_port: HashMap<usize, usize>,
    /// call key -> the tasks of its legs
    calls: HashMap<u64, Vec<TaskId>>,
    /// call key -> the call id it was computed from
    call_names: HashMap<u64, String>,
}

impl CallMediaStore {
    /// The free ports, in the order they are handed out.
    pub closed spec fn pool(&self) -> Seq<usize> {
        self.port_pool@
    }

    pub closed spec fn remote_tasks(&self) -> Map<(Seq<char>, u16), usize> {
        self.addr_task_mapper.view()
    }

    pub closed spec fn backends(&self) -> Map<(Seq<char>, u16), usize> {
        self.addr_backend_mapper.view()
    }

    pub closed spec fn task_remotes(&self) -> Map<usize, (Seq<char>, u16)> {
        self.task_addr_mapper@.map_values(|a: NetAddr| a@)
    }

    pub closed spec fn local_tasks(&self) -> Map<(Seq<char>, u16), usize> {
        self.addr_leg_task.view()
    }

    pub closed spec fn task_slots(&self) -> Map<usize, usize> {
        self.task_slot@
    }

    /// The port each task holds.
    pub closed spec fn task_ports(&self) -> Map<usize, usize> {
        self.task_port@
    }

    /// The call id each call key was computed from.
    pub closed spec fn call_names(&self) -> Map<u64, Seq<char>> {
        self.call_names@.map_values(|n: String| n@)
    }

    pub closed spec fn calls(&self) -> Map<u64, Seq<TaskId>> {
        self.calls@.map_values(|v: Vec<TaskId>| v@)
    }

    /// A port is free or held by one task, never both, and never twice.
    pub closed spec fn wf(&self) -> bool {
        &&& self.addr_task_mapper.wf()
        &&& self.addr_backend_mapper.wf()
        &&& self.addr_leg_task.wf()
        &&& self.port_pool@.no_duplicates()
        &&& forall|t: usize| #[trigger]
            self.task_port@.contains_key(t) ==> !self.port_pool@.contains(self.task_port@[t])
        &&& forall|t: usize, u: usize|
            #[trigger] self.task_port@.contains_key(t) && #[trigger] self.task_port@.contains_key(u)
                && t != u ==> self.task_port@[t] != self.task_port@[u]
        &&& forall|a: (Seq<char>, u16)| #[trigger] self.addr_task_mapper.view().contains_key(a)
            ==> self.task_addr_mapper@.contains_key(self.addr_task_mapper.view()[a])
                && self.task_addr_mapper@[self.addr_task_mapper.view()[a]]@ == a
        &&& forall|a: (Seq<char>, u16)| #[trigger] self.addr_leg_task.view().contains_key(a)
            ==> self.task_port@.contains_key(self.addr_leg_task.view()[a])
                && a == (any_host(), self.task_port@[self.addr_leg_task.view()[a]] as u16)
    }

    /// A bound local address is the wildcard address on its task's port.
    pub proof fn lemma_local_bound(&self, a: (Seq<char>, u16))
        requires
            self.wf(),
            self.local_tasks().contains_key(a),
        ensures
            self.task_ports().contains_key(self.local_tasks()[a]),
            a == (any_host(), self.task_ports()[self.local_tasks()[a]] as u16),
    {
    }

    /// An address bound to a task is the address that task records.
    pub proof fn lemma_remote_bound(&self, a: (Seq<char>, u16))
        requires
            self.wf(),
            self.remote_tasks().contains_key(a),
        ensures
            self.task_remotes().contains_key(self.remote_tasks()[a]),
            self.task_remotes()[self.remote_tasks()[a]] == a,
    {
    }

    /// A free port is in the pool once.
    pub proof fn lemma_pool_distinct(&self)
        requires
            self.wf(),
        ensures
            self.pool().no_duplicates(),
    {
    }

    /// `port` is neither free nor held by a task.
    pub open spec fn port_is_out(&self, port: usize) -> bool {
        &&& !self.pool().contains(port)
        &&& forall|t: usize| #[trigger] self.task_ports().contains_key(t) ==> self.task_ports()[t] != port
    }

    pub fn new(port_range: PortRange) -> (r: CallMediaStore)
        ensures
            r.wf(),
            r.pool() == port_seq(port_range.min, port_range.max),
            r.remote_tasks().is_empty(),
            r.backends().is_empty(),
            r.task_remotes().is_empty(),
            r.local_tasks().is_empty(),
            r.task_slots().is_empty(),
            r.task_ports().is_empty(),
            r.calls().is_empty(),
            r.call_names().is_empty(),
    {
        let mut port_pool: VecDeque<usize> = VecDeque::new();
        let mut p: usize = port_range.min;
        while p < port_range.max
            invariant
                port_range.min <= p <= port_range.max || (p == port_range.min && port_range.max
                    < port_range.min),
                port_range.min <= p ==> port_pool@ == port_seq(port_range.min, p),
            decreases port_range.max - p,
        {
            port_pool.push_back(p);
            assert(port_pool@ =~= port_seq(port_range.min, (p + 1) as usize));
            p = p + 1;
        }
        assert(port_pool@ =~= port_seq(port_range.min, port_range.max));
        let r = CallMediaStore {
            port_pool,
            addr_task_mapper: AddrTable::new(),
            addr_backend_mapper: AddrTable::new(),
            task_addr_mapper: HashMap::new(),
            addr_leg_task: AddrTable::new(),
            task_slot: HashMap::new(),
            task_port: HashMap::new(),
            calls: HashMap::new(),
            call_names: HashMap::new(),
        };
        assert(r.task_remotes() =~= Map::empty());
        assert(r.calls() =~= Map::empty());
        assert(r.call_names() =~= Map::empty());
        assert(r.pool().no_duplicates()) by {
            assert forall|i: int, j: int| 0 <= i < j < r.pool().len() implies r.pool()[i]
                != r.pool()[j] by {}
        }
        r
    }

    /// Every table but the pool is as in `o`.
    pub open spec fn same_tables(&self, o: &CallMediaStore) -> bool {
        &&& self.remote_tasks() == o.remote_tasks()
        &&& self.backends() == o.backends()
        &&& self.task_remotes() == o.task_remotes()
        &&& self.local_tasks() == o.local_tasks()
        &&& self.task_slots() == o.task_slots()
        &&& self.task_ports() == o.task_ports()
        &&& self.calls() == o.calls()
        &&& self.call_names() == o.call_names()
    }

    /// Takes the next free port.
    pub fn next_port(&mut self) -> (r: Option<usize>)
        requires
            old(self).wf(),
        ensures
            final(self).wf(),
            final(self).same_tables(old(self)),
            old(self).pool().len() == 0 ==> r is None && final(self).pool() == old(self).pool(),
            old(self).pool().len() > 0 ==> r == Some(old(self).pool()[0]) && final(self).pool()
                == old(self).pool().drop_first(),
            r matches Some(p) ==> final(self).port_is_out(p),
    {
        let r = self.port_pool.pop_front();
        proof {
            if old(self).pool().len() > 0 {
                assert(old(self).pool() == seq![old(self).pool()[0]] + self.pool());
                assert forall|i: int, j: int| 0 <= i < j < self.pool().len() implies self.pool()[i]
                    != self.pool()[j] by {
                    assert(self.pool()[i] == old(self).pool()[i + 1]);
                    assert(self.pool()[j] == old(self).pool()[j + 1]);
                }
                assert forall|t: usize| #[trigger] self.task_port@.contains_key(t) implies !self.port_pool@.contains(self.task_port@[t]) by {
                    if self.port_pool@.contains(self.task_port@[t]) {
                        let k = choose|k: int| 0 <= k < self.pool().len() && self.pool()[k] == self.task_port@[t];
                        assert(old(self).pool()[k + 1] == self.task_port@[t]);
                    }
                }
                let p = old(self).pool()[0];
                assert(!self.pool().contains(p)) by {
                    if self.pool().contains(p) {
                        let k = choose|k: int| 0 <= k < self.pool().len() && self.pool()[k] == p;
                        assert(old(self).pool()[k + 1] == p);
                    }
                }
                assert(old(self).pool().contains(p));
            }
        }
        r
    }

    /// Returns a port to the back of the pool.
    pub fn push_port(&mut self, port: usize)
        requires
            old(self).wf(),
            old(self).port_is_out(port),
        ensures
            final(self).wf(),
            final(self).same_tables(old(self)),
            final(self).pool() == old(self).pool().push(port),
    {
        self.port_pool.push_back(port);
        proof {
            assert forall|i: int, j: int| 0 <= i < j < self.pool().len() implies self.pool()[i]
                != self.pool()[j] by {
                if j == self.pool().len() - 1 {
                    assert(old(self).pool().contains(self.pool()[i]));
                }
            }
            assert forall|t: usize| #[trigger] self.task_port@.contains_key(t) implies !self.port_pool@.contains(self.task_port@[t]) by {
                assert(old(self).task_ports().contains_key(t));
                if self.port_pool@.contains(self.task_port@[t]) {
                    let k = choose|k: int| 0 <= k < self.pool().len() && self.pool()[k] == self.task_port@[t];
                    if k < old(self).pool().len() {
                        assert(old(self).pool().contains(self.task_port@[t]));
                    }
                }
            }
        }
    }

    /// Puts a port that was just taken back at the front of the pool.
    pub fn restore_port(&mut self, port: usize)
        requires
            old(self).wf(),
            old(self).port_is_out(port),
        ensures
            final(self).wf(),
            final(self).same_tables(old(self)),
            final(self).pool() == seq![port] + old(self).pool(),
    {
        self.port_pool.push_front(port);
        proof {
            assert(self.pool() =~= seq![port] + old(self).pool());
            assert forall|i: int, j: int| 0 <= i < j < self.pool().len() implies self.pool()[i]
                != self.pool()[j] by {
                if i == 0 {
                    assert(old(self).pool()[j - 1] == self.pool()[j]);
                    assert(old(self).pool().contains(self.pool()[j]));
                } else {
                    assert(old(self).pool()[i - 1] == self.pool()[i]);
                    assert(old(self).pool()[j - 1] == self.pool()[j]);
                }
            }
            assert forall|t: usize| #[trigger] self.task_port@.contains_key(t) implies !self.port_pool@.contains(self.task_port@[t]) by {
                assert(old(self).task_ports().contains_key(t));
                if self.port_pool@.contains(self.task_port@[t]) {
                    let k = choose|k: int| 0 <= k < self.pool().len() && self.pool()[k] == self.task_port@[t];
                    if k > 0 {
                        assert(old(self).pool()[k - 1] == self.task_port@[t]);
                    }
                }
            }
        }
    }

    /// Records that `task_id` holds `port`.
    pub fn assign_port(&mut self, task_id: TaskId, port: usize)
        requires
            old(self).wf(),
            old(self).port_is_out(port),
            !old(self).task_ports().contains_key(task_id.slot()),
        ensures
            final(self).wf(),
            final(self).task_ports() == old(self).task_ports().insert(task_id.slot(), port),
            final(self).pool() == old(self).pool(),
            final(self).remote_tasks() == old(self).remote_tasks(),
            final(self).backends() == old(self).backends(),
            final(self).task_remotes() == old(self).task_remotes(),
            final(self).local_tasks() == old(self).local_tasks(),
            final(self).task_slots() == old(self).task_slots(),
            final(self).calls() == old(self).calls(),
            final(self).call_names() == old(self).call_names(),
    {
        self.task_port.insert(task_id.index(), port);
    }

    /// The port that `task_id` holds.
    pub fn port_of_task(&self, task_id: &TaskId) -> (r: Option<usize>)
        ensures
            r == (if self.task_ports().contains_key(task_id.slot()) {
                Some(self.task_ports()[task_id.slot()])
            } else {
                None::<usize>
            }),
    {
        match self.task_port.get(&task_id.index()) {
            Some(p) => Some(*p),
            None => None,
        }
    }

    /// Binds the remote forwarding address `addr` and the task to each other.
    pub fn add_task(&mut self, addr: NetAddr, task_id: TaskId)
        requires
            old(self).wf(),
        ensures
            final(self).wf(),
            final(self).task_remotes() == old(self).task_remotes().insert(task_id.slot(), addr@),
            final(self).remote_tasks() == (if old(self).task_remotes().contains_key(task_id.slot()) {
                old(self).remote_tasks().remove(old(self).task_remotes()[task_id.slot()])
            } else {
                old(self).remote_tasks()
            }).insert(addr@, task_id.slot()),
            final(self).pool() == old(self).pool(),
            final(self).backends() == old(self).backends(),
            final(self).local_tasks() == old(self).local_tasks(),
            final(self).task_slots() == old(self).task_slots(),
            final(self).task_ports() == old(self).task_ports(),
            final(self).calls() == old(self).calls(),
            final(self).call_names() == old(self).call_names(),
    {
        let ghost a = addr@;
        match self.task_addr_mapper.insert(task_id.index(), addr.duplicate()) {
            Some(previous) => {
                self.addr_task_mapper.remove(&previous);
            },
            None => {},
        }
        self.addr_task_mapper.insert(addr, task_id.index());
        assert(self.task_remotes() =~= old(self).task_remotes().insert(task_id.slot(), a));
        proof {
            assert forall|x: (Seq<char>, u16)| #[trigger] self.addr_task_mapper.view().contains_key(x)
                implies self.task_addr_mapper@.contains_key(self.addr_task_mapper.view()[x])
                    && self.task_addr_mapper@[self.addr_task_mapper.view()[x]]@ == x by {
                if x != a {
                    assert(old(self).addr_task_mapper.view().contains_key(x));
                }
            }
        }
    }

    /// Unbinds the task from its remote address, in both directions.
    pub fn remove_task(&mut self, task_id: &TaskId)
        requires
            old(self).wf(),
        ensures
            final(self).wf(),
            final(self).task_remotes() == old(self).task_remotes().remove(task_id.slot()),
            final(self).remote_tasks() == (if old(self).task_remotes().contains_key(task_id.slot()) {
                old(self).remote_tasks().remove(old(self).task_remotes()[task_id.slot()])
            } else {
                old(self).remote_tasks()
            }),
            final(self).pool() == old(self).pool(),
            final(self).backends() == old(self).backends(),
            final(self).local_tasks() == old(self).local_tasks(),
            final(self).task_slots() == old(self).task_slots(),
            final(self).task_ports() == old(self).task_ports(),
            final(self).calls() == old(self).calls(),
            final(self).call_names() == old(self).call_names(),
    {
        match self.task_addr_mapper.remove(&task_id.index()) {
            Some(addr) => {
                self.addr_task_mapper.remove(&addr);
            },
            None => {},
        }
        assert(self.task_remotes() =~= old(self).task_remotes().remove(task_id.slot()));
    }

    /// Adds a leg's task to a call.
    pub fn add_call(&mut self, call_id: u64, task_id: TaskId)
        requires
            old(self).wf(),
        ensures
            final(self).wf(),
            final(self).calls() == old(self).calls().insert(
                call_id,
                if old(self).calls().contains_key(call_id) {
                    old(self).calls()[call_id].push(task_id)
                } else {
                    seq![task_id]
                },
            ),
            final(self).same_pool_and_bindings(old(self)),
    {
        match self.calls.remove(&call_id) {
            Some(mut tasks) => {
                tasks.push(task_id);
                self.calls.insert(call_id, tasks);
            },
            None => {
                let mut tasks: Vec<TaskId> = Vec::new();
                tasks.push(task_id);
                self.calls.insert(call_id, tasks);
            },
        }
        proof {
            let expect = old(self).calls().insert(
                call_id,
                if old(self).calls().contains_key(call_id) {
                    old(self).calls()[call_id].push(task_id)
                } else {
                    seq![task_id]
                },
            );
            assert(self.calls() =~= expect);
        }
    }

    /// Every table but the calls is as in `o`.
    pub open spec fn same_pool_and_bindings(&self, o: &CallMediaStore) -> bool {
        &&& self.pool() == o.pool()
        &&& self.remote_tasks() == o.remote_tasks()
        &&& self.backends() == o.backends()
        &&& self.task_remotes() == o.task_remotes()
        &&& self.local_tasks() == o.local_tasks()
        &&& self.task_slots() == o.task_slots()
        &&& self.task_ports() == o.task_ports()
        &&& self.call_names() == o.call_names()
    }

    /// The tasks of a call's legs.
    pub fn get_call(&self, call_id: u64) -> (r: Option<&Vec<TaskId>>)
        ensures
            match r {
                Some(v) => self.calls().contains_key(call_id) && v@ == self.calls()[call_id],
                None => !self.calls().contains_key(call_id),
            },
    {
        self.calls.get(&call_id)
    }

    pub fn add_backend(&mut self, addr: NetAddr, backend: usize)
        requires
            old(self).wf(),
        ensures
            final(self).wf(),
            final(self).backends() == old(self).backends().insert(addr@, backend),
            final(self).pool() == old(self).pool(),
            final(self).remote_tasks() == old(self).remote_tasks(),
            final(self).task_remotes() == old(self).task_remotes(),
            final(self).local_tasks() == old(self).local_tasks(),
            final(self).task_slots() == old(self).task_slots(),
            final(self).task_ports() == old(self).task_ports(),
            final(self).calls() == old(self).calls(),
            final(self).call_names() == old(self).call_names(),
    {
        self.addr_backend_mapper.insert(addr, backend);
    }

    /// The backend socket that `addr` was seen on.
    pub fn get_backend(&self, addr: &NetAddr) -> (r: Option<usize>)
        requires
            self.wf(),
        ensures
            r == (if self.backends().contains_key(addr@) {
                Some(self.backends()[addr@])
            } else {
                None::<usize>
            }),
    {
        self.addr_backend_mapper.get(addr)
    }

    /// The backend socket seen for the task's remote address.
    pub fn get_backend_by_task(&self, task_id: &TaskId) -> (r: Option<usize>)
        requires
            self.wf(),
        ensures
            r == (if self.task_remotes().contains_key(task_id.slot()) && self.backends().contains_key(
                self.task_remotes()[task_id.slot()],
            ) {
                Some(self.backends()[self.task_remotes()[task_id.slot()]])
            } else {
                None::<usize>
            }),
    {
        match self.task_addr_mapper.get(&task_id.index()) {
            Some(addr) => self.addr_backend_mapper.get(addr),
            None => None,
        }
    }

    /// The task whose remote forwarding address is `addr`.
    pub fn get_task(&self, addr: &NetAddr) -> (r: Option<TaskId>)
        requires
            self.wf(),
        ensures
            r == (if self.remote_tasks().contains_key(addr@) {
                Some(TaskId::Rtp(self.remote_tasks()[addr@]))
            } else {
                None::<TaskId>
            }),
    {
        match self.addr_task_mapper.get(addr) {
            Some(i) => Some(TaskId::Rtp(i)),
            None => None,
        }
    }

    /// The backend socket bound for the task.
    pub fn get_slot_by_task(&self, task_id: &TaskId) -> (r: Option<usize>)
        ensures
            r == (if self.task_slots().contains_key(task_id.slot()) {
                Some(self.task_slots()[task_id.slot()])
            } else {
                None::<usize>
            }),
    {
        match self.task_slot.get(&task_id.index()) {
            Some(s) => Some(*s),
            None => None,
        }
    }

    pub fn save_slot_task(&mut self, task_id: TaskId, slot: usize)
        requires
            old(self).wf(),
        ensures
            final(self).wf(),
            final(self).task_slots() == old(self).task_slots().insert(task_id.slot(), slot),
            final(self).pool() == old(self).pool(),
            final(self).remote_tasks() == old(self).remote_tasks(),
            final(self).backends() == old(self).backends(),
            final(self).task_remotes() == old(self).task_remotes(),
            final(self).local_tasks() == old(self).local_tasks(),
            final(self).task_ports() == old(self).task_ports(),
            final(self).calls() == old(self).calls(),
            final(self).call_names() == old(self).call_names(),
    {
        self.task_slot.insert(task_id.index(), slot);
    }

    /// Binds the local address a task's socket is opened on to the task.
    pub fn save_addr_task(&mut self, addr: NetAddr, task_id: TaskId)
        requires
            old(self).wf(),
            old(self).task_ports().contains_key(task_id.slot()),
            addr@ == (any_host(), old(self).task_ports()[task_id.slot()] as u16),
        ensures
            final(self).wf(),
            final(self).local_tasks() == old(self).local_tasks().insert(addr@, task_id.slot()),
            final(self).pool() == old(self).pool(),
            final(self).remote_tasks() == old(self).remote_tasks(),
            final(self).backends() == old(self).backends(),
            final(self).task_remotes() == old(self).task_remotes(),
            final(self).task_slots() == old(self).task_slots(),
            final(self).task_ports() == old(self).task_ports(),
            final(self).calls() == old(self).calls(),
            final(self).call_names() == old(self).call_names(),
    {
        let ghost a = addr@;
        self.addr_leg_task.insert(addr, task_id.index());
        proof {
            assert forall|x: (Seq<char>, u16)| #[trigger] self.addr_leg_task.view().contains_key(x)
                implies self.task_port@.contains_key(self.addr_leg_task.view()[x])
                    && x == (any_host(), self.task_port@[self.addr_leg_task.view()[x]] as u16) by {
                if x != a {
                    assert(old(self).addr_leg_task.view().contains_key(x));
                }
            }
        }
    }

    /// The task whose socket is opened on the local address `addr`.
    pub fn get_task_by_addr(&self, addr: &NetAddr) -> (r: Option<TaskId>)
        requires
            self.wf(),
        ensures
            r == (if self.local_tasks().contains_key(addr@) {
                Some(TaskId::Rtp(self.local_tasks()[addr@]))
            } else {
                None::<TaskId>
            }),
    {
        match self.addr_leg_task.get(addr) {
            Some(i) => Some(TaskId::Rtp(i)),
            None => None,
        }
    }

    /// The call id that `call_id`'s key was recorded with.
    pub fn name_of_call(&self, call_id: u64) -> (r: Option<String>)
        ensures
            match r {
                Some(n) => self.call_names().contains_key(call_id) && n@ == self.call_names()[call_id],
                None => !self.call_names().contains_key(call_id),
            },
    {
        match self.call_names.get(&call_id) {
            Some(n) => Some(n.clone()),
            None => None,
        }
    }

    /// Records the call id that a call key was computed from.
    pub fn name_call(&mut self, call_id: u64, name: String)
        requires
            old(self).wf(),
        ensures
            final(self).wf(),
            final(self).call_names() == old(self).call_names().insert(call_id, name@),
            final(self).pool() == old(self).pool(),
            final(self).remote_tasks() == old(self).remote_tasks(),
            final(self).backends() == old(self).backends(),
            final(self).task_remotes() == old(self).task_remotes(),
            final(self).local_tasks() == old(self).local_tasks(),
            final(self).task_slots() == old(self).task_slots(),
            final(self).task_ports() == old(self).task_ports(),
            final(self).calls() == old(self).calls(),
    {
        let ghost n = name@;
        self.call_names.insert(call_id, name);
        assert(self.call_names() =~= old(self).call_names().insert(call_id, n));
    }

    /// Forgets a task: unbinds its addresses and its socket, and returns the
    /// port it holds to the pool.
    fn drop_task(&mut self, task_id: &TaskId)
        requires
            old(self).wf(),
        ensures
            final(self).wf(),
            final(self).task_ports() == old(self).task_ports().remove(task_id.slot()),
            final(self).pool() == (if old(self).task_ports().contains_key(task_id.slot()) {
                old(self).pool().push(old(self).task_ports()[task_id.slot()])
            } else {
                old(self).pool()
            }),
            final(self).task_remotes() == old(self).task_remotes().remove(task_id.slot()),
            final(self).task_slots() == old(self).task_slots().remove(task_id.slot()),
            final(self).remote_tasks().submap_of(old(self).remote_tasks()),
            final(self).local_tasks().submap_of(old(self).local_tasks()),
            final(self).backends() == old(self).backends(),
            final(self).calls() == old(self).calls(),
            final(self).call_names() == old(self).call_names(),
    {
        let t = task_id.index();
        match self.task_addr_mapper.remove(&t) {
            Some(addr) => {
                match self.addr_task_mapper.get(&addr) {
                    Some(owner) => {
                        if owner == t {
                            self.addr_task_mapper.remove(&addr);
                        }
                    },
                    None => {},
                }
            },
            None => {},
        }
        self.task_slot.remove(&t);
        match self.task_port.remove(&t) {
            Some(port) => {
                let bind = NetAddr::any_ipv4(port as u16);
                match self.addr_leg_task.get(&bind) {
                    Some(owner) => {
                        if owner == t {
                            self.addr_leg_task.remove(&bind);
                        }
                    },
                    None => {},
                }
                proof {
                    assert(old(self).task_ports().contains_key(t));
                    assert forall|u: usize| #[trigger] self.task_port@.contains_key(u) implies self.task_port@[u] != port by {
                        assert(old(self).task_port@.contains_key(u));
                    }
                }
                self.push_port(port);
            },
            None => {},
        }
        proof {
            assert(self.task_remotes() =~= old(self).task_remotes().remove(task_id.slot()));
            assert(self.remote_tasks().submap_of(old(self).remote_tasks()));
        }
    }

    /// Ends a call: forgets every task of its legs, returning the ports they
    /// hold to the pool. A call that is not there is left alone.
    pub fn remove_call(&mut self, call_id: u64)
        requires
            old(self).wf(),
        ensures
            final(self).wf(),
            final(self).calls() == old(self).calls().remove(call_id),
            final(self).backends() == old(self).backends(),
            old(self).calls().contains_key(call_id) ==> final(self).call_names() == old(self).call_names().remove(
                call_id,
            ),
            !old(self).calls().contains_key(call_id) ==> final(self).same_tables(old(self))
                && final(self).pool() == old(self).pool(),
            old(self).calls().contains_key(call_id) ==> {
                let legs = old(self).calls()[call_id];
                &&& final(self).task_ports() == old(self).task_ports().remove_keys(slots_of(legs))
                &&& final(self).task_remotes() == old(self).task_remotes().remove_keys(slots_of(legs))
                &&& final(self).task_slots() == old(self).task_slots().remove_keys(slots_of(legs))
                &&& final(self).pool().to_set() == old(self).pool().to_set() + ports_of(old(self).task_ports(), legs)
                &&& final(self).pool().subrange(0, old(self).pool().len() as int) == old(self).pool()
                &&& final(self).remote_tasks().submap_of(old(self).remote_tasks())
                &&& final(self).local_tasks().submap_of(old(self).local_tasks())
                &&& forall|a: (Seq<char>, u16)| #[trigger] final(self).remote_tasks().contains_key(a)
                    ==> !slots_of(legs).contains(final(self).remote_tasks()[a])
                &&& forall|a: (Seq<char>, u16)| #[trigger] final(self).local_tasks().contains_key(a)
                    ==> !slots_of(legs).contains(final(self).local_tasks()[a])
            },
    {
        let ghost o = *self;
        match self.calls.remove(&call_id) {
            Some(tasks) => {
                let ghost legs = tasks@;
                self.call_names.remove(&call_id);
                assert(self.calls() =~= o.calls().remove(call_id));
                assert(self.call_names() =~= o.call_names().remove(call_id));
                let mut i: usize = 0;
                while i < tasks.len()
                    invariant
                        self.wf(),
                        legs == tasks@,
                        o.wf(),
                        o.calls().contains_key(call_id) && o.calls()[call_id] == legs,
                        i <= tasks@.len(),
                        self.calls() == o.calls().remove(call_id),
                        self.call_names() == o.call_names().remove(call_id),
                        self.backends() == o.backends(),
                        self.task_ports() == o.task_ports().remove_keys(slots_of(legs.take(i as int))),
                        self.task_remotes() == o.task_remotes().remove_keys(slots_of(legs.take(i as int))),
                        self.task_slots() == o.task_slots().remove_keys(slots_of(legs.take(i as int))),
                        self.pool().to_set() == o.pool().to_set() + ports_of(o.task_ports(), legs.take(i as int)),
                        self.pool().subrange(0, o.pool().len() as int) == o.pool(),
                        o.pool().len() <= self.pool().len(),
                        self.remote_tasks().submap_of(o.remote_tasks()),
                        self.local_tasks().submap_of(o.local_tasks()),
                    decreases tasks@.len() - i,
                {
                    let ghost before = *self;
                    let t = tasks[i];
                    self.drop_task(&t);
                    proof {
                        let s0 = slots_of(legs.take(i as int));
                        let s1 = slots_of(legs.take(i + 1));
                        assert(legs.take(i + 1) == legs.take(i as int).push(t));
                        assert(s1 =~= s0.insert(t.slot())) by {
                            assert forall|x: usize| s1.contains(x) implies s0.insert(t.slot()).contains(x) by {
                                let k = choose|k: int| 0 <= k < legs.take(i + 1).len() && #[trigger] legs.take(i + 1)[k].slot() == x;
                                if k < i {
                                    assert(legs.take(i as int)[k] == legs.take(i + 1)[k]);
                                }
                            }
                            assert forall|x: usize| s0.insert(t.slot()).contains(x) implies s1.contains(x) by {
                                if x == t.slot() {
                                    assert(legs.take(i + 1)[i as int].slot() == x);
                                } else {
                                    let k = choose|k: int| 0 <= k < legs.take(i as int).len() && #[trigger] legs.take(i as int)[k].slot() == x;
                                    assert(legs.take(i + 1)[k] == legs.take(i as int)[k]);
                                }
                            }
                        }
                        assert(self.task_ports() =~= o.task_ports().remove_keys(s1));
                        assert(self.task_remotes() =~= o.task_remotes().remove_keys(s1));
                        assert(self.task_slots() =~= o.task_slots().remove_keys(s1));
                        let freed_before = ports_of(o.task_ports(), legs.take(i as int));
                        let freed_after = ports_of(o.task_ports(), legs.take(i + 1));
                        assert forall|x: usize| freed_after.contains(x) <==> (freed_before.contains(x) || (o.task_ports().contains_key(t.slot()) && o.task_ports()[t.slot()] == x)) by {
                            if freed_after.contains(x) {
                                let k = choose|k: int| 0 <= k < legs.take(i + 1).len() && o.task_ports().contains_key(#[trigger] legs.take(i + 1)[k].slot()) && o.task_ports()[legs.take(i + 1)[k].slot()] == x;
                                if k < i {
                                    assert(legs.take(i as int)[k] == legs.take(i + 1)[k]);
                                }
                            }
                            if freed_before.contains(x) {
                                let k = choose|k: int| 0 <= k < legs.take(i as int).len() && o.task_ports().contains_key(#[trigger] legs.take(i as int)[k].slot()) && o.task_ports()[legs.take(i as int)[k].slot()] == x;
                                assert(legs.take(i + 1)[k] == legs.take(i as int)[k]);
                            }
                            if o.task_ports().contains_key(t.slot()) && o.task_ports()[t.slot()] == x {
                                assert(legs.take(i + 1)[i as int] == t);
                            }
                        }
                        if before.task_ports().contains_key(t.slot()) {
                            assert(before.task_ports()[t.slot()] == o.task_ports()[t.slot()]);
                            assert(self.pool().to_set() =~= before.pool().to_set().insert(before.task_ports()[t.slot()])) by {
                                assert forall|x: usize| self.pool().contains(x) <==> before.pool().to_set().insert(before.task_ports()[t.slot()]).contains(x) by {
                                    if self.pool().contains(x) {
                                        let k = choose|k: int| 0 <= k < self.pool().len() && self.pool()[k] == x;
                                        if k < before.pool().len() {
                                            assert(before.pool()[k] == x);
                                        }
                                    }
                                    if before.pool().contains(x) {
                                        let k = choose|k: int| 0 <= k < before.pool().len() && before.pool()[k] == x;
                                        assert(self.pool()[k] == x);
                                    }
                                    if x == before.task_ports()[t.slot()] {
                                        assert(self.pool()[before.pool().len() as int] == x);
                                    }
                                }
                            }
                            assert(self.pool().to_set() =~= o.pool().to_set() + freed_after);
                            assert(self.pool().subrange(0, o.pool().len() as int) =~= o.pool()) by {
                                assert forall|k: int| 0 <= k < o.pool().len() implies self.pool()[k] == before.pool()[k] by {}
                                assert forall|k: int| 0 <= k < o.pool().len() implies before.pool()[k] == before.pool().subrange(0, o.pool().len() as int)[k] by {}
                            }
                        } else {
                            if o.task_ports().contains_key(t.slot()) {
                                // removed by an earlier occurrence of the same task
                                assert(s0.contains(t.slot()));
                                let k = choose|k: int| 0 <= k < legs.take(i as int).len() && #[trigger] legs.take(i as int)[k].slot() == t.slot();
                                assert(freed_before.contains(o.task_ports()[t.slot()]));
                            }
                            assert(self.pool().to_set() =~= o.pool().to_set() + freed_after);
                        }
                        assert forall|k: (Seq<char>, u16)| #[trigger] self.remote_tasks().contains_key(k) implies o.remote_tasks().contains_key(k) && self.remote_tasks()[k] == o.remote_tasks()[k] by {
                            assert(before.remote_tasks().contains_key(k));
                        }
                        assert forall|k: (Seq<char>, u16)| #[trigger] self.local_tasks().contains_key(k) implies o.local_tasks().contains_key(k) && self.local_tasks()[k] == o.local_tasks()[k] by {
                            assert(before.local_tasks().contains_key(k));
                        }
                    }
                    i = i + 1;
                }
                proof {
                    assert(legs.take(legs.len() as int) == legs);
                    assert forall|a: (Seq<char>, u16)| #[trigger] self.remote_tasks().contains_key(a)
                        implies !slots_of(legs).contains(self.remote_tasks()[a]) by {
                        self.lemma_remote_bound(a);
                    }
                    assert forall|a: (Seq<char>, u16)| #[trigger] self.local_tasks().contains_key(a)
                        implies !slots_of(legs).contains(self.local_tasks()[a]) by {
                        self.lemma_local_bound(a);
                    }
                }
            },
            None => {
                assert(self.calls() =~= o.calls().remove(call_id));
                assert(self.calls() =~= o.calls());
            },
        }
    }
}

} // verus!

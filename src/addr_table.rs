use vstd::prelude::*;

use crate::addr::NetAddr;

verus! {

/// A table from socket addresses to integers, kept as a list of entries
/// with pairwise distinct addresses.
pub struct AddrTable {
    entries: Vec<(NetAddr, usize)>,
}

impl AddrTable {
    /// The entries' addresses are pairwise distinct.
    pub closed spec fn wf(&self) -> bool {
        forall|i: int, j: int|
            0 <= i < j < self.entries@.len() ==> #[trigger] self.entries@[i].0@
                != #[trigger] self.entries@[j].0@
    }

    /// The table as a map.
    pub closed spec fn view(&self) -> Map<(Seq<char>, u16), usize> {
        Map::new(
            |k: (Seq<char>, u16)| exists|i: int| 0 <= i < self.entries@.len() && #[trigger] self.entries@[i].0@ == k,
            |k: (Seq<char>, u16)|
                self.entries@[choose|i: int| 0 <= i < self.entries@.len() && #[trigger] self.entries@[i].0@ == k].1,
        )
    }

    proof fn lemma_entry(&self, i: int)
        requires
            self.wf(),
            0 <= i < self.entries@.len(),
        ensures
            self.view().contains_key(self.entries@[i].0@),
            self.view()[self.entries@[i].0@] == self.entries@[i].1,
    {
        let k = self.entries@[i].0@;
        assert(self.view().contains_key(k));
        let j = choose|j: int| 0 <= j < self.entries@.len() && #[trigger] self.entries@[j].0@ == k;
        assert(j == i);
    }

    pub fn new() -> (r: AddrTable)
        ensures
            r.wf(),
            r.view() == Map::<(Seq<char>, u16), usize>::empty(),
    {
        let r = AddrTable { entries: Vec::new() };
        assert(r.view() =~= Map::<(Seq<char>, u16), usize>::empty());
        r
    }

    /// The position of `a` among the entries, if it is there.
    fn find(&self, a: &NetAddr) -> (r: Option<usize>)
        requires
            self.wf(),
        ensures
            match r {
                Some(i) => i < self.entries@.len() && self.entries@[i as int].0@ == a@,
                None => forall|i: int| 0 <= i < self.entries@.len() ==> #[trigger] self.entries@[i].0@ != a@,
            },
    {
        let mut i: usize = 0;
        while i < self.entries.len()
            invariant
                i <= self.entries@.len(),
                forall|j: int| 0 <= j < i ==> #[trigger] self.entries@[j].0@ != a@,
            decreases self.entries@.len() - i,
        {
            if self.entries[i].0.same(a) {
                return Some(i);
            }
            i = i + 1;
        }
        None
    }

    pub fn get(&self, a: &NetAddr) -> (r: Option<usize>)
        requires
            self.wf(),
        ensures
            r == (if self.view().contains_key(a@) {
                Some(self.view()[a@])
            } else {
                None::<usize>
            }),
    {
        match self.find(a) {
            Some(i) => {
                proof {
                    self.lemma_entry(i as int);
                }
                Some(self.entries[i].1)
            },
            None => {
                assert(!self.view().contains_key(a@));
                None
            },
        }
    }

    pub fn insert(&mut self, a: NetAddr, v: usize)
        requires
            old(self).wf(),
        ensures
            final(self).wf(),
            final(self).view() == old(self).view().insert(a@, v),
    {
        let ghost before = self.view();
        match self.find(&a) {
            Some(i) => {
                let ghost k = a@;
                self.entries.set(i, (a, v));
                proof {
                    assert forall|x: (Seq<char>, u16)| #[trigger]
                        self.view().contains_key(x) == before.insert(k, v).contains_key(x) by {
                        if x != k && before.contains_key(x) {
                            let j = choose|j: int| 0 <= j < old(self).entries@.len() && #[trigger] old(self).entries@[j].0@ == x;
                            assert(self.entries@[j].0@ == x);
                        }
                        if self.view().contains_key(x) && x != k {
                            let j = choose|j: int| 0 <= j < self.entries@.len() && #[trigger] self.entries@[j].0@ == x;
                            assert(old(self).entries@[j].0@ == x);
                        }
                        if x == k {
                            assert(self.entries@[i as int].0@ == x);
                        }
                    }
                    assert forall|x: (Seq<char>, u16)| #[trigger] self.view().contains_key(x) implies
                        self.view()[x] == before.insert(k, v)[x] by {
                        let j = choose|j: int| 0 <= j < self.entries@.len() && #[trigger] self.entries@[j].0@ == x;
                        self.lemma_entry(j);
                        if j != i {
                            old(self).lemma_entry(j);
                        }
                    }
                    assert(self.view() =~= before.insert(k, v));
                }
            },
            None => {
                let ghost k = a@;
                self.entries.push((a, v));
                proof {
                    let n = old(self).entries@.len();
                    assert forall|x: (Seq<char>, u16)| #[trigger]
                        self.view().contains_key(x) == before.insert(k, v).contains_key(x) by {
                        if x != k && before.contains_key(x) {
                            let j = choose|j: int| 0 <= j < old(self).entries@.len() && #[trigger] old(self).entries@[j].0@ == x;
                            assert(self.entries@[j].0@ == x);
                        }
                        if x == k {
                            assert(self.entries@[n as int].0@ == x);
                        }
                        if self.view().contains_key(x) && x != k {
                            let j = choose|j: int| 0 <= j < self.entries@.len() && #[trigger] self.entries@[j].0@ == x;
                            assert(old(self).entries@[j].0@ == x);
                        }
                    }
                    assert forall|x: (Seq<char>, u16)| #[trigger] self.view().contains_key(x) implies
                        self.view()[x] == before.insert(k, v)[x] by {
                        let j = choose|j: int| 0 <= j < self.entries@.len() && #[trigger] self.entries@[j].0@ == x;
                        self.lemma_entry(j);
                        if j != n {
                            old(self).lemma_entry(j);
                        }
                    }
                    assert(self.view() =~= before.insert(k, v));
                }
            },
        }
    }

    pub fn remove(&mut self, a: &NetAddr)
        requires
            old(self).wf(),
        ensures
            final(self).wf(),
            final(self).view() == old(self).view().remove(a@),
    {
        let ghost before = self.view();
        match self.find(a) {
            Some(i) => {
                self.entries.remove(i);
                proof {
                    let k = a@;
                    let o = old(self).entries@;
                    assert forall|j: int| 0 <= j < self.entries@.len() implies #[trigger] self.entries@[j]
                        == (if j < i { o[j] } else { o[j + 1] }) by {}
                    assert forall|x: (Seq<char>, u16)| #[trigger]
                        self.view().contains_key(x) == before.remove(k).contains_key(x) by {
                        if x != k && before.contains_key(x) {
                            let j = choose|j: int| 0 <= j < o.len() && #[trigger] o[j].0@ == x;
                            if j < i {
                                assert(self.entries@[j].0@ == x);
                            } else {
                                assert(self.entries@[j - 1].0@ == x);
                            }
                        }
                        if self.view().contains_key(x) {
                            let j = choose|j: int| 0 <= j < self.entries@.len() && #[trigger] self.entries@[j].0@ == x;
                            if j < i {
                                assert(o[j].0@ == x);
                            } else {
                                assert(o[j + 1].0@ == x);
                            }
                        }
                    }
                    assert forall|x: (Seq<char>, u16)| #[trigger] self.view().contains_key(x) implies
                        self.view()[x] == before.remove(k)[x] by {
                        let j = choose|j: int| 0 <= j < self.entries@.len() && #[trigger] self.entries@[j].0@ == x;
                        self.lemma_entry(j);
                        if j < i {
                            old(self).lemma_entry(j);
                        } else {
                            old(self).lemma_entry(j + 1);
                        }
                    }
                    assert(self.view() =~= before.remove(k));
                }
            },
            None => {
                assert(self.view() =~= before.remove(a@));
            },
        }
    }
}

} // verus!

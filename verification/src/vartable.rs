//! Variable identity for one function under lowering.
//!
//! The table owns the next-id counter and a stack of "dirty trackers":
//! sets of variable ids written since the tracker was pushed. A tracker is
//! pushed before control flow diverges and popped at the merge point; its
//! contents become the merge block's phi set.

use vstd::prelude::*;

use crate::ast::{Identifier, Type};

verus! {

/// One variable: its id, its type and a display name. Ids are issued in a
/// strictly increasing sequence and never reused within a function.
pub struct Variable {
    pub id: usize,
    pub ty: Type,
    pub name: String,
}

/// The variable table for one function.
pub struct Vartable {
    pub vars: Vec<Variable>,
    pub next_id: usize,
    pub dirty: Vec<Vec<usize>>,
}

/// A sequence with no repeated elements; trackers keep this so that a phi
/// set lists each variable once.
pub open spec fn no_dups(s: Seq<usize>) -> bool {
    forall|i: int, j: int| 0 <= i < j < s.len() ==> s[i] != s[j]
}

/// A union with the empty set changes nothing.
pub broadcast proof fn lemma_union_empty(s: Set<usize>)
    ensures
        #[trigger] s.union(Set::empty()) == s,
{
    assert(s.union(Set::empty()) =~= s);
}

/// Adjoining a singleton is insertion.
pub broadcast proof fn lemma_union_singleton(s: Set<usize>, x: usize)
    ensures
        #[trigger] s.union(Set::empty().insert(x)) == s.insert(x),
{
    assert(s.union(Set::empty().insert(x)) =~= s.insert(x));
}

/// Inserting an element twice is inserting it once.
pub broadcast proof fn lemma_insert_twice(s: Set<usize>, x: usize)
    ensures
        #[trigger] s.insert(x).insert(x) == s.insert(x),
{
    assert(s.insert(x).insert(x) =~= s.insert(x));
}

/// The one-element sequence converts to the one-element set.
pub broadcast proof fn lemma_singleton_seq_to_set(x: usize)
    ensures
        #[trigger] seq![x].to_set() == Set::empty().insert(x),
{
    assert(seq![x][0] == x);
    assert(seq![x].contains(x));
    assert forall|y: usize| seq![x].contains(y) implies y == x by {
        let i = choose|i: int| 0 <= i < seq![x].len() && seq![x][i] == y;
        assert(seq![x][i] == x);
    }
    assert(seq![x].to_set() =~= Set::empty().insert(x));
}

/// The empty sequence converts to the empty set.
pub broadcast proof fn lemma_empty_seq_to_set()
    ensures
        #[trigger] Seq::<usize>::empty().to_set() == Set::<usize>::empty(),
{
    assert(Seq::<usize>::empty().to_set() =~= Set::<usize>::empty());
}

/// Linear scan for an id in a tracker.
fn tracker_contains(v: &Vec<usize>, x: usize) -> (r: bool)
    ensures
        r == v@.contains(x),
{
    let n = v.len();
    let mut i: usize = 0;
    while i < n
        invariant
            i <= n,
            n == v@.len(),
            forall|k: int| 0 <= k < i ==> v@[k] != x,
        decreases n - i,
    {
        if v[i] == x {
            return true;
        }
        i += 1;
    }
    false
}

impl Vartable {
    /// Ids already issued are below the counter, issued in increasing
    /// order, and every tracker is duplicate-free.
    pub open spec fn wf(self) -> bool {
        &&& forall|i: int| 0 <= i < self.vars.len() ==> (#[trigger] self.vars[i].id) < self.next_id
        &&& forall|i: int, j: int|
            0 <= i < j < self.vars.len() ==> self.vars[i].id < self.vars[j].id
        &&& forall|t: int| 0 <= t < self.dirty.len() ==> no_dups((#[trigger] self.dirty[t])@)
    }

    /// The dirty set recorded by tracker `t`.
    pub open spec fn tracker_set(self, t: int) -> Set<usize> {
        self.dirty[t]@.to_set()
    }

    /// A fresh table that will issue ids starting at `next_id`.
    pub fn new(next_id: usize) -> (r: Vartable)
        ensures
            r.wf(),
            r.vars@.len() == 0,
            r.next_id == next_id,
            r.dirty@.len() == 0,
    {
        Vartable { vars: Vec::new(), next_id, dirty: Vec::new() }
    }

    /// Issue a fresh id and record the variable under the given name.
    pub fn temp_name(&mut self, name: &str, ty: &Type) -> (id: usize)
        requires
            old(self).wf(),
            old(self).next_id < usize::MAX,
        ensures
            final(self).wf(),
            id == old(self).next_id,
            final(self).next_id == old(self).next_id + 1,
            final(self).vars@.len() == old(self).vars@.len() + 1,
            final(self).vars@ == old(self).vars@.push(final(self).vars@.last()),
            final(self).vars@.last().id == id,
            final(self).vars@.last().ty == *ty,
            final(self).vars@.last().name@ == name@,
            final(self).dirty == old(self).dirty,
    {
        let id = self.next_id;
        let var = Variable { id, ty: ty.clone(), name: name.to_owned() };
        self.vars.push(var);
        self.next_id = id + 1;
        id
    }

    /// Issue a fresh id for a compiler temporary with no source name.
    pub fn temp_anonymous(&mut self, ty: &Type) -> (id: usize)
        requires
            old(self).wf(),
            old(self).next_id < usize::MAX,
        ensures
            final(self).wf(),
            id == old(self).next_id,
            final(self).next_id == old(self).next_id + 1,
            final(self).vars@.len() == old(self).vars@.len() + 1,
            final(self).vars@ == old(self).vars@.push(final(self).vars@.last()),
            final(self).vars@.last().id == id,
            final(self).vars@.last().ty == *ty,
            final(self).dirty == old(self).dirty,
    {
        self.temp_name("temp", ty)
    }

    /// Issue a fresh id for a named source-level binding.
    pub fn temp(&mut self, id: &Identifier, ty: &Type) -> (var_no: usize)
        requires
            old(self).wf(),
            old(self).next_id < usize::MAX,
        ensures
            final(self).wf(),
            var_no == old(self).next_id,
            final(self).next_id == old(self).next_id + 1,
            final(self).vars@.len() == old(self).vars@.len() + 1,
            final(self).vars@.last().id == var_no,
            final(self).vars@.last().ty == *ty,
            final(self).vars@.last().name@ == id.name@,
            final(self).dirty == old(self).dirty,
    {
        self.temp_name(id.name.as_str(), ty)
    }

    /// Push an empty dirty tracker; writes from here to the matching pop
    /// are recorded for the merge block's phi set.
    pub fn new_dirty_tracker(&mut self)
        requires
            old(self).wf(),
        ensures
            final(self).wf(),
            final(self).vars == old(self).vars,
            final(self).next_id == old(self).next_id,
            final(self).dirty@ == old(self).dirty@.push(final(self).dirty@.last()),
            final(self).dirty@.last()@.len() == 0,
    {
        self.dirty.push(Vec::new());
    }

    /// Record that `id` was written: every open tracker learns of it.
    pub fn set_dirty(&mut self, id: usize)
        requires
            old(self).wf(),
        ensures
            final(self).wf(),
            final(self).vars == old(self).vars,
            final(self).next_id == old(self).next_id,
            final(self).dirty@.len() == old(self).dirty@.len(),
            forall|t: int|
                0 <= t < final(self).dirty@.len() ==> final(self).tracker_set(t) == old(
                    self,
                ).tracker_set(t).insert(id),
    {
        let n = self.dirty.len();
        let mut t: usize = 0;
        while t < n
            invariant
                n == self.dirty@.len(),
                t <= n,
                self.vars == old(self).vars,
                self.next_id == old(self).next_id,
                self.wf(),
                forall|k: int|
                    0 <= k < t ==> self.tracker_set(k) == old(self).tracker_set(k).insert(id),
                forall|k: int| t <= k < n ==> self.dirty@[k] == old(self).dirty@[k],
            decreases n - t,
        {
            let ghost pre = *self;
            let found = tracker_contains(&self.dirty[t], id);
            if found {
                proof {
                    assert(old(self).tracker_set(t as int).contains(id));
                    assert forall|y: usize|
                        self.tracker_set(t as int).contains(y) == old(self).tracker_set(
                            t as int,
                        ).insert(id).contains(y) by {}
                    assert(self.tracker_set(t as int) =~= old(self).tracker_set(t as int).insert(
                        id,
                    ));
                }
            } else {
                let ghost before = self.dirty@[t as int]@;
                self.dirty[t].push(id);
                proof {
                    assert(self.dirty@[t as int]@ == before.push(id));
                    assert(!before.contains(id));
                    assert forall|i: int, j: int|
                        0 <= i < j < before.push(id).len() implies before.push(id)[i]
                        != before.push(id)[j] by {
                        if j < before.len() {
                            assert(before[i] != before[j]);
                        } else {
                            assert(before.push(id)[j] == id);
                            assert(before[i] != id);
                        }
                    }
                    assert(no_dups(before.push(id)));
                    before.lemma_push_to_set_commute(id);
                    assert(self.tracker_set(t as int) =~= old(self).tracker_set(t as int).insert(
                        id,
                    ));
                }
            }
            proof {
                assert forall|k: int| 0 <= k < t implies self.tracker_set(k) == old(
                    self,
                ).tracker_set(k).insert(id) by {
                    assert(self.dirty@[k] == pre.dirty@[k]);
                    assert(pre.tracker_set(k) == old(self).tracker_set(k).insert(id));
                    assert(self.tracker_set(k) =~= pre.tracker_set(k));
                }
                assert forall|k: int| t + 1 <= k < n implies self.dirty@[k] == old(
                    self,
                ).dirty@[k] by {
                    assert(self.dirty@[k] == pre.dirty@[k]);
                }
            }
            t += 1;
        }
    }

    /// Pop the innermost tracker and hand back the set of ids written
    /// since it was pushed.
    pub fn pop_dirty_tracker(&mut self) -> (set: Vec<usize>)
        requires
            old(self).wf(),
            old(self).dirty@.len() > 0,
        ensures
            final(self).wf(),
            final(self).vars == old(self).vars,
            final(self).next_id == old(self).next_id,
            final(self).dirty@ == old(self).dirty@.drop_last(),
            set@ == old(self).dirty@.last()@,
            no_dups(set@),
    {
        self.dirty.pop().unwrap()
    }
}

} // verus!

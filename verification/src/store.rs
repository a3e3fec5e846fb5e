use vstd::prelude::*;
use std::collections::HashMap;
use crate::codex::CodexResult;
use crate::task::{Correlation, Task};

verus! {

broadcast use vstd::std_specs::hash::group_hash_axioms;

/// The coarse state of a task as reported to producers.
#[derive(Clone, Copy, PartialEq, Eq, PartialOrd, Ord, Structural, Debug)]
pub enum TaskStatus {
    Pending,
    Processing,
    Completed,
    Failed,
    Absent,
}

/// The terminal outcome of one task: either the handler's result value,
/// or a human-readable message describing why it failed.
pub enum TaskOutcome {
    Completed { data: CodexResult },
    Failed { message: String },
}

/// A record of a task's terminal outcome, keyed by task id, echoing the
/// producer's correlation metadata.
pub struct ResultRecord {
    pub outcome: TaskOutcome,
    pub correlation: Correlation,
}

impl ResultRecord {
    /// The coarse status this record stands for.
    pub fn status(&self) -> (st: TaskStatus)
        ensures
            st == (if self.outcome is Failed {
                TaskStatus::Failed
            } else {
                TaskStatus::Completed
            }),
    {
        match &self.outcome {
            TaskOutcome::Completed { .. } => TaskStatus::Completed,
            TaskOutcome::Failed { .. } => TaskStatus::Failed,
        }
    }
}

/// The task ids of a listing, in listing order.
pub open spec fn listed_ids(r: Seq<(u128, TaskStatus)>) -> Seq<u128> {
    r.map_values(|p: (u128, TaskStatus)| p.0)
}

/// The queue reliability state machine: two ordered collections of task
/// references ("pending" and "processing"), a record store holding the
/// full task payloads, and a store of terminal results.
///
/// A task reference lives in at most one of the two collections while
/// unresolved, and leaves both once its result is written and
/// acknowledged.
pub struct QueueStore {
    pending: Vec<u128>,
    processing: Vec<u128>,
    tasks: HashMap<u128, Task>,
    results: HashMap<u128, ResultRecord>,
    resolved: Vec<u128>,
}

impl QueueStore {
    /// The references waiting to be claimed, in arrival order
    /// (the front of the sequence is dequeued first).
    pub closed spec fn pending(self) -> Seq<u128> {
        self.pending@
    }

    /// The references claimed by a worker and not yet acknowledged,
    /// in claim order.
    pub closed spec fn processing(self) -> Seq<u128> {
        self.processing@
    }

    /// The stored task payloads, by task id.
    pub closed spec fn tasks(self) -> Map<u128, Task> {
        self.tasks@
    }

    /// The terminal results, by task id.
    pub closed spec fn results(self) -> Map<u128, ResultRecord> {
        self.results@
    }

    /// The ids that currently hold a result record, in first-write order.
    pub closed spec fn resolved_ids(self) -> Seq<u128> {
        self.resolved@
    }

    /// Well-formedness: no reference occurs twice, no reference is in
    /// both collections at once, and the bookkeeping list of resolved
    /// ids mirrors the domain of the result store.
    pub open spec fn inv(self) -> bool {
        &&& self.pending().no_duplicates()
        &&& self.processing().no_duplicates()
        &&& forall|id: u128| #[trigger]
            self.processing().contains(id) ==> !self.pending().contains(id)
        &&& self.resolved_ids().no_duplicates()
        &&& forall|id: u128| #[trigger]
            self.resolved_ids().contains(id) <==> self.results().contains_key(id)
    }

    /// An id is visible if a status can be reported for it at all.
    pub open spec fn visible(self, id: u128) -> bool {
        self.pending().contains(id) || self.processing().contains(id)
            || self.results().contains_key(id)
    }

    /// The status reported for `id`.  A terminal result takes priority
    /// over queue membership; processing takes priority over pending.
    pub open spec fn spec_status(self, id: u128) -> TaskStatus {
        if self.results().contains_key(id) {
            if self.results()[id].outcome is Failed {
                TaskStatus::Failed
            } else {
                TaskStatus::Completed
            }
        } else if self.processing().contains(id) {
            TaskStatus::Processing
        } else if self.pending().contains(id) {
            TaskStatus::Pending
        } else {
            TaskStatus::Absent
        }
    }

    /// An empty store.
    pub fn new() -> (s: QueueStore)
        ensures
            s.inv(),
            s.pending() == Seq::<u128>::empty(),
            s.processing() == Seq::<u128>::empty(),
            s.tasks() == Map::<u128, Task>::empty(),
            s.results() == Map::<u128, ResultRecord>::empty(),
    {
        let s = QueueStore {
            pending: Vec::new(),
            processing: Vec::new(),
            tasks: HashMap::new(),
            results: HashMap::new(),
            resolved: Vec::new(),
        };
        proof {
            assert(s.pending() =~= Seq::<u128>::empty());
            assert(s.processing() =~= Seq::<u128>::empty());
            assert(s.resolved_ids() =~= Seq::<u128>::empty());
        }
        s
    }

    /// Persist the task payload and append its reference to pending.
    ///
    /// The caller supplies a globally unique id, so the reference must
    /// not already be queued.
    pub fn enqueue(&mut self, task: Task)
        requires
            old(self).inv(),
            !old(self).pending().contains(task.id),
            !old(self).processing().contains(task.id),
        ensures
            final(self).inv(),
            enqueued(*old(self), task, *final(self)),
    {
        let id = task.id;
        self.tasks.insert(id, task);
        self.pending.push(id);
        proof {
            lemma_push_fresh_keeps_no_dup(old(self).pending(), id);
            assert forall|x: u128| #[trigger] self.processing().contains(x)
                implies !self.pending().contains(x) by {
                assert(!old(self).pending().contains(x));
                lemma_push_contains(old(self).pending(), id, x);
            }
        }
    }

    /// Atomically claim the oldest pending reference: remove it from the
    /// front of pending and append it to processing.  Returns `None`
    /// when nothing is pending (the blocking wait is the caller's).
    pub fn dequeue(&mut self) -> (r: Option<u128>)
        requires
            old(self).inv(),
        ensures
            final(self).inv(),
            dequeued(*old(self), *final(self), r),
    {
        if self.pending.len() == 0 {
            return None;
        }
        let id = self.pending.remove(0);
        proof {
            assert(old(self).pending()[0] == id);
            assert(self.pending@ == old(self).pending().remove(0));
            assert(old(self).pending().remove(0) =~= old(self).pending().drop_first());
            lemma_remove_keeps_no_dup(old(self).pending(), 0);
            lemma_remove_not_contains(old(self).pending(), 0);
            assert(old(self).pending().contains(id)) by {
                assert(old(self).pending()[0] == id);
            }
            assert(!old(self).processing().contains(id));
            lemma_push_fresh_keeps_no_dup(old(self).processing(), id);
        }
        self.processing.push(id);
        proof {
            assert forall|x: u128| #[trigger] self.processing().contains(x)
                implies !self.pending().contains(x) by {
                lemma_push_contains(old(self).processing(), id, x);
                lemma_remove_contains(old(self).pending(), 0);
                if x == id {
                    assert(!old(self).pending().remove(0).contains(id));
                } else {
                    assert(old(self).processing().contains(x));
                    assert(!old(self).pending().contains(x));
                }
            }
        }
        Some(id)
    }

    /// Drop the reference from processing once its result is durably
    /// stored.  Acknowledging an id that is not in processing is a
    /// no-op, so duplicate acknowledgements after a crash are harmless.
    pub fn acknowledge(&mut self, id: u128)
        requires
            old(self).inv(),
        ensures
            final(self).inv(),
            acknowledged(*old(self), id, *final(self)),
    {
        remove_id(&mut self.processing, id);
        proof {
            assert forall|x: u128| #[trigger] self.processing().contains(x)
                implies !self.pending().contains(x) by {
                assert(old(self).processing().contains(x));
            }
        }
    }

    /// Move every claimed reference back to pending, in claim order,
    /// leaving processing empty.  Run once at worker startup so that a
    /// task stranded by a crash is retried.
    pub fn recover_stranded(&mut self)
        requires
            old(self).inv(),
        ensures
            final(self).inv(),
            recovered(*old(self), *final(self)),
    {
        let n = self.processing.len();
        let mut i: usize = 0;
        while i < n
            invariant
                i <= n,
                n == self.processing@.len(),
                self.processing@ == old(self).processing(),
                self.tasks@ == old(self).tasks(),
                self.results@ == old(self).results(),
                self.resolved@ == old(self).resolved_ids(),
                self.pending@ == old(self).pending() + old(self).processing().take(i as int),
            decreases n - i,
        {
            let id = self.processing[i];
            self.pending.push(id);
            proof {
                assert(self.pending@ =~= old(self).pending() + old(self).processing().take(
                    i as int + 1,
                ));
            }
            i += 1;
        }
        proof {
            assert(old(self).processing().take(n as int) =~= old(self).processing());
        }
        self.processing.clear();
        proof {
            lemma_disjoint_concat_no_dup(old(self).pending(), old(self).processing());
        }
    }

    /// Record the terminal result for `id`.  Overwrites any earlier
    /// record: a task re-executed after crash recovery writes again.
    pub fn write_result(&mut self, id: u128, record: ResultRecord)
        requires
            old(self).inv(),
        ensures
            final(self).inv(),
            result_written(*old(self), id, record, *final(self)),
    {
        if !contains_id(&self.resolved, id) {
            self.resolved.push(id);
            proof {
                lemma_push_fresh_keeps_no_dup(old(self).resolved_ids(), id);
            }
        }
        self.results.insert(id, record);
        proof {
            assert forall|x: u128|
                (#[trigger] self.resolved_ids().contains(x) <==> self.results().contains_key(
                    x,
                )) by {
                if !old(self).resolved_ids().contains(id) {
                    lemma_push_contains(old(self).resolved_ids(), id, x);
                }
            }
        }
    }

    /// The stored result record for `id`, if any.
    pub fn get_result(&self, id: u128) -> (r: Option<&ResultRecord>)
        ensures
            match r {
                Option::Some(rec) => self.results().contains_key(id)
                    && *rec == self.results().index(id),
                Option::None => !self.results().contains_key(id),
            },
    {
        self.results.get(&id)
    }

    /// The stored task payload for `id`, if it has not been removed.
    pub fn get_task(&self, id: u128) -> (r: Option<&Task>)
        ensures
            match r {
                Option::Some(t) => self.tasks().contains_key(id) && *t == self.tasks()[id],
                Option::None => !self.tasks().contains_key(id),
            },
    {
        self.tasks.get(&id)
    }

    /// Report the status of one task id.
    pub fn get_status(&self, id: u128) -> (st: TaskStatus)
        ensures
            st == self.spec_status(id),
    {
        match self.results.get(&id) {
            Option::Some(rec) => rec.status(),
            Option::None => {
                if contains_id(&self.processing, id) {
                    TaskStatus::Processing
                } else if contains_id(&self.pending, id) {
                    TaskStatus::Pending
                } else {
                    TaskStatus::Absent
                }
            },
        }
    }

    /// Every visible task id with its status: ids from pending,
    /// processing and the result store, each listed once, resolved by
    /// the same precedence as `get_status`.
    pub fn list_tasks(&self) -> (r: Vec<(u128, TaskStatus)>)
        requires
            self.inv(),
        ensures
            forall|i: int|
                0 <= i < r@.len() ==> self.visible(#[trigger] r@[i].0) && r@[i].1
                    == self.spec_status(r@[i].0),
            forall|id: u128| #[trigger] self.visible(id) ==> listed_ids(r@).contains(id),
            listed_ids(r@).no_duplicates(),
    {
        let ghost all = self.pending@ + self.processing@ + self.resolved@;
        let mut candidates: Vec<u128> = Vec::new();
        let mut i: usize = 0;
        while i < self.pending.len()
            invariant
                i <= self.pending@.len(),
                candidates@ == self.pending@.take(i as int),
            decreases self.pending@.len() - i,
        {
            candidates.push(self.pending[i]);
            proof {
                assert(candidates@ =~= self.pending@.take(i as int + 1));
            }
            i += 1;
        }
        proof {
            assert(self.pending@.take(self.pending@.len() as int) =~= self.pending@);
        }
        let mut j: usize = 0;
        while j < self.processing.len()
            invariant
                j <= self.processing@.len(),
                candidates@ == self.pending@ + self.processing@.take(j as int),
            decreases self.processing@.len() - j,
        {
            candidates.push(self.processing[j]);
            proof {
                assert(candidates@ =~= self.pending@ + self.processing@.take(j as int + 1));
            }
            j += 1;
        }
        proof {
            assert(self.processing@.take(self.processing@.len() as int) =~= self.processing@);
        }
        let mut k: usize = 0;
        while k < self.resolved.len()
            invariant
                k <= self.resolved@.len(),
                candidates@ == self.pending@ + self.processing@ + self.resolved@.take(k as int),
            decreases self.resolved@.len() - k,
        {
            candidates.push(self.resolved[k]);
            proof {
                assert(candidates@ =~= self.pending@ + self.processing@ + self.resolved@.take(
                    k as int + 1,
                ));
            }
            k += 1;
        }
        proof {
            assert(self.resolved@.take(self.resolved@.len() as int) =~= self.resolved@);
            assert(candidates@ =~= all);
        }
        let mut out: Vec<(u128, TaskStatus)> = Vec::new();
        let mut t: usize = 0;
        while t < candidates.len()
            invariant
                self.inv(),
                candidates@ == all,
                all == self.pending@ + self.processing@ + self.resolved@,
                t <= all.len(),
                listed_ids(out@).no_duplicates(),
                forall|m: int|
                    0 <= m < out@.len() ==> self.visible(#[trigger] out@[m].0) && out@[m].1
                        == self.spec_status(out@[m].0),
                forall|m: int| 0 <= m < t ==> listed_ids(out@).contains(#[trigger] all[m]),
            decreases all.len() - t,
        {
            let id = candidates[t];
            let ghost ids = listed_ids(out@);
            let present = contains_listed(&out, id);
            if !present {
                let st = self.get_status(id);
                proof {
                    let ti = t as int;
                    let pl = self.pending@.len() as int;
                    let ql = self.processing@.len() as int;
                    if ti < pl {
                        assert(all[ti] == self.pending@[ti]);
                        assert(self.pending@.contains(id));
                    } else if ti < pl + ql {
                        assert(all[ti] == self.processing@[ti - pl]);
                        assert(self.processing@.contains(id));
                    } else {
                        assert(all[ti] == self.resolved@[ti - pl - ql]);
                        assert(self.resolved_ids().contains(id));
                    }
                    assert(self.visible(id));
                    lemma_push_fresh_keeps_no_dup(ids, id);
                }
                out.push((id, st));
                proof {
                    assert(listed_ids(out@) =~= ids.push(id));
                    assert forall|m: int| 0 <= m < t + 1 implies listed_ids(out@).contains(
                        #[trigger] all[m],
                    ) by {
                        lemma_push_contains(ids, id, all[m]);
                        if m < t {
                            assert(ids.contains(all[m]));
                        }
                    }
                }
            } else {
                proof {
                    assert forall|m: int| 0 <= m < t + 1 implies listed_ids(out@).contains(
                        #[trigger] all[m],
                    ) by {
                    }
                }
            }
            t += 1;
        }
        proof {
            assert forall|id: u128| #[trigger] self.visible(id) implies listed_ids(
                out@,
            ).contains(id) by {
                let pl = self.pending@.len() as int;
                let ql = self.processing@.len() as int;
                if self.results().contains_key(id) {
                    assert(self.resolved_ids().contains(id));
                    let m = choose|m: int|
                        0 <= m < self.resolved@.len() && self.resolved@[m] == id;
                    assert(all[pl + ql + m] == id);
                } else if self.processing@.contains(id) {
                    let m = choose|m: int|
                        0 <= m < self.processing@.len() && self.processing@[m] == id;
                    assert(all[pl + m] == id);
                } else {
                    assert(self.pending@.contains(id));
                    let m = choose|m: int| 0 <= m < self.pending@.len() && self.pending@[m] == id;
                    assert(all[m] == id);
                }
            }
        }
        out
    }

    /// Remove the task's references from both collections and delete its
    /// payload and any result record.  Safe on an unknown id.
    pub fn delete_task(&mut self, id: u128)
        requires
            old(self).inv(),
        ensures
            final(self).inv(),
            removed(*old(self), id, *final(self)),
    {
        remove_id(&mut self.pending, id);
        remove_id(&mut self.processing, id);
        remove_id(&mut self.resolved, id);
        self.tasks.remove(&id);
        self.results.remove(&id);
        proof {
            assert forall|x: u128| #[trigger] self.processing().contains(x)
                implies !self.pending().contains(x) by {
                assert(old(self).processing().contains(x));
            }
            assert forall|x: u128|
                (#[trigger] self.resolved_ids().contains(x) <==> self.results().contains_key(
                    x,
                )) by {
                if x != id {
                    if self.resolved_ids().contains(x) {
                        assert(old(self).resolved_ids().contains(x));
                    }
                    if old(self).resolved_ids().contains(x) {
                        assert(self.resolved_ids().contains(x));
                    }
                }
            }
        }
    }

    /// Empty both collections and delete every result record.  Stored
    /// payloads are left to expire on their own.
    pub fn delete_all(&mut self)
        requires
            old(self).inv(),
        ensures
            final(self).inv(),
            cleared(*old(self), *final(self)),
    {
        self.pending.clear();
        self.processing.clear();
        self.resolved.clear();
        self.results = HashMap::new();
    }
}

/// The status precedence rule on raw store reads: a terminal result
/// wins over queue membership, and processing wins over pending.
pub fn reconcile_status(result: Option<&ResultRecord>, in_processing: bool, in_pending: bool) -> (st:
    TaskStatus)
    ensures
        st == (match result {
            Option::Some(r) => if r.outcome is Failed {
                TaskStatus::Failed
            } else {
                TaskStatus::Completed
            },
            Option::None => if in_processing {
                TaskStatus::Processing
            } else if in_pending {
                TaskStatus::Pending
            } else {
                TaskStatus::Absent
            },
        }),
{
    match result {
        Option::Some(rec) => rec.status(),
        Option::None => {
            if in_processing {
                TaskStatus::Processing
            } else if in_pending {
                TaskStatus::Pending
            } else {
                TaskStatus::Absent
            }
        },
    }
}

/// Scan a listing for an id.
fn contains_listed(v: &Vec<(u128, TaskStatus)>, id: u128) -> (r: bool)
    ensures
        r == listed_ids(v@).contains(id),
{
    let mut i: usize = 0;
    while i < v.len()
        invariant
            i <= v@.len(),
            forall|k: int| 0 <= k < i ==> listed_ids(v@)[k] != id,
        decreases v@.len() - i,
    {
        if v[i].0 == id {
            proof {
                assert(listed_ids(v@)[i as int] == id);
            }
            return true;
        }
        i += 1;
    }
    false
}

/// Scan a list of ids for an id.
fn contains_id(v: &Vec<u128>, id: u128) -> (r: bool)
    ensures
        r == v@.contains(id),
{
    let mut i: usize = 0;
    while i < v.len()
        invariant
            i <= v@.len(),
            forall|k: int| 0 <= k < i ==> v@[k] != id,
        decreases v@.len() - i,
    {
        if v[i] == id {
            return true;
        }
        i += 1;
    }
    false
}

/// Remove the single occurrence of `id` from a duplicate-free list,
/// preserving the order of the rest; a no-op when absent.
fn remove_id(v: &mut Vec<u128>, id: u128)
    requires
        old(v)@.no_duplicates(),
    ensures
        final(v)@.no_duplicates(),
        !final(v)@.contains(id),
        forall|x: u128| #[trigger] final(v)@.contains(x) && x != id ==> old(v)@.contains(x),
        forall|x: u128| #[trigger] old(v)@.contains(x) && x != id ==> final(v)@.contains(x),
        old(v)@.contains(id) ==> final(v)@ == old(v)@.remove_value(id),
        !old(v)@.contains(id) ==> final(v)@ == old(v)@,
{
    let ghost v0 = v@;
    let mut i: usize = 0;
    while i < v.len()
        invariant
            v@ == v0,
            v0 == old(v)@,
            v0.no_duplicates(),
            i <= v0.len(),
            forall|k: int| 0 <= k < i ==> v0[k] != id,
        decreases v0.len() - i,
    {
        if v[i] == id {
            let ghost fi_pos = i as int;
            v.remove(i);
            proof {
                assert(v0[fi_pos] == id);
                assert(v0.contains(id));
                v0.index_of_first_ensures(id);
                let fi = v0.index_of_first(id)->0;
                assert(v0[fi] == id);
                assert(fi == fi_pos) by {
                    if fi < fi_pos {
                        assert(v0[fi] != id);
                    }
                    if fi > fi_pos {
                        assert(v0[fi_pos] != id);
                    }
                }
                assert(v@ == v0.remove_value(id));
                lemma_remove_keeps_no_dup(v0, fi_pos);
                lemma_remove_not_contains(v0, fi_pos);
                let vr = v0.remove(fi_pos);
                v0.remove_ensures(fi_pos);
                assert(v@ == vr);
                assert forall|x: u128| #[trigger] vr.contains(x) && x != id
                    implies v0.contains(x) by {
                    let j = choose|j: int| 0 <= j < vr.len() && vr[j] == x;
                    if j < fi_pos {
                        assert(vr[j] == v0[j]);
                    } else {
                        assert(vr[j] == v0[j + 1]);
                    }
                }
                assert forall|x: u128| #[trigger] v0.contains(x) && x != id
                    implies vr.contains(x) by {
                    let j = choose|j: int| 0 <= j < v0.len() && v0[j] == x;
                    assert(j != fi_pos);
                    if j < fi_pos {
                        assert(vr[j] == v0[j]);
                    } else {
                        assert(vr[j - 1] == v0[j]);
                    }
                }
            }
            return;
        }
        i += 1;
    }
    proof {
        assert(!v0.contains(id));
    }
}

/// Pushing a value not yet present keeps a sequence duplicate-free.
proof fn lemma_push_fresh_keeps_no_dup(s: Seq<u128>, id: u128)
    requires
        s.no_duplicates(),
        !s.contains(id),
    ensures
        s.push(id).no_duplicates(),
{
    let t = s.push(id);
    assert forall|i: int, j: int|
        0 <= i < t.len() && 0 <= j < t.len() && i != j implies t[i] != t[j] by {
        if i < s.len() && j < s.len() {
        } else if i == s.len() {
            assert(t[i] == id);
            if t[j] == id {
                assert(s[j] == id);
                assert(s.contains(id));
            }
        } else {
            assert(t[j] == id);
            if t[i] == id {
                assert(s[i] == id);
                assert(s.contains(id));
            }
        }
    }
}

/// Membership in a sequence extended by one value.
proof fn lemma_push_contains(s: Seq<u128>, id: u128, x: u128)
    ensures
        s.push(id).contains(x) <==> (s.contains(x) || x == id),
{
    let t = s.push(id);
    if t.contains(x) {
        let i = choose|i: int| 0 <= i < t.len() && t[i] == x;
        if i < s.len() {
            assert(s[i] == x);
        }
    }
    if s.contains(x) {
        let i = choose|i: int| 0 <= i < s.len() && s[i] == x;
        assert(t[i] == x);
    }
    if x == id {
        assert(t[s.len() as int] == x);
    }
}

/// Removing an element keeps a sequence duplicate-free.
proof fn lemma_remove_keeps_no_dup(s: Seq<u128>, i: int)
    requires
        s.no_duplicates(),
        0 <= i < s.len(),
    ensures
        s.remove(i).no_duplicates(),
{
    s.remove_ensures(i);
    let t = s.remove(i);
    assert forall|a: int, b: int|
        0 <= a < t.len() && 0 <= b < t.len() && a != b implies t[a] != t[b] by {
        let a2 = if a < i {
            a
        } else {
            a + 1
        };
        let b2 = if b < i {
            b
        } else {
            b + 1
        };
        assert(t[a] == s[a2]);
        assert(t[b] == s[b2]);
    }
}

/// After removing the only occurrence of a value from a duplicate-free
/// sequence, the value is gone.
proof fn lemma_remove_not_contains(s: Seq<u128>, i: int)
    requires
        s.no_duplicates(),
        0 <= i < s.len(),
    ensures
        !s.remove(i).contains(s[i]),
{
    s.remove_ensures(i);
    let t = s.remove(i);
    if t.contains(s[i]) {
        let j = choose|j: int| 0 <= j < t.len() && t[j] == s[i];
        let j2 = if j < i {
            j
        } else {
            j + 1
        };
        assert(t[j] == s[j2]);
        assert(j2 != i);
    }
}

/// Membership is preserved by removal, except possibly for the removed
/// element itself.
proof fn lemma_remove_contains(s: Seq<u128>, i: int)
    requires
        0 <= i < s.len(),
    ensures
        forall|x: u128| #[trigger] s.remove(i).contains(x) ==> s.contains(x),
        forall|x: u128| x != s[i] && #[trigger] s.contains(x) ==> s.remove(i).contains(x),
{
    s.remove_ensures(i);
    let t = s.remove(i);
    assert forall|x: u128| #[trigger] t.contains(x) implies s.contains(x) by {
        let j = choose|j: int| 0 <= j < t.len() && t[j] == x;
        let j2 = if j < i {
            j
        } else {
            j + 1
        };
        assert(t[j] == s[j2]);
    }
    assert forall|x: u128| x != s[i] && #[trigger] s.contains(x) implies t.contains(x) by {
        let j = choose|j: int| 0 <= j < s.len() && s[j] == x;
        if j < i {
            assert(t[j] == s[j]);
        } else {
            assert(j > i);
            assert(t[j - 1] == s[j]);
        }
    }
}

/// The concatenation of two duplicate-free sequences with no element in
/// common is duplicate-free.
proof fn lemma_disjoint_concat_no_dup(a: Seq<u128>, b: Seq<u128>)
    requires
        a.no_duplicates(),
        b.no_duplicates(),
        forall|x: u128| #[trigger] b.contains(x) ==> !a.contains(x),
    ensures
        (a + b).no_duplicates(),
{
    let t = a + b;
    assert forall|i: int, j: int|
        0 <= i < t.len() && 0 <= j < t.len() && i != j implies t[i] != t[j] by {
        if i < a.len() && j < a.len() {
            assert(t[i] == a[i] && t[j] == a[j]);
        } else if i >= a.len() && j >= a.len() {
            assert(t[i] == b[i - a.len()] && t[j] == b[j - a.len()]);
        } else if i < a.len() {
            assert(t[i] == a[i] && t[j] == b[j - a.len()]);
            if t[i] == t[j] {
                assert(b.contains(t[j]));
                assert(a.contains(t[i]));
            }
        } else {
            assert(t[i] == b[i - a.len()] && t[j] == a[j]);
            if t[i] == t[j] {
                assert(b.contains(t[i]));
                assert(a.contains(t[j]));
            }
        }
    }
}

/// The enqueue transition: the payload is stored and the reference is
/// appended to pending; nothing else moves.
pub open spec fn enqueued(pre: QueueStore, task: Task, post: QueueStore) -> bool {
    &&& post.pending() == pre.pending().push(task.id)
    &&& post.processing() == pre.processing()
    &&& post.tasks() == pre.tasks().insert(task.id, task)
    &&& post.results() == pre.results()
}

/// The dequeue transition: either nothing was pending and the store is
/// unchanged, or the oldest pending reference moved to processing.
pub open spec fn dequeued(pre: QueueStore, post: QueueStore, r: Option<u128>) -> bool {
    match r {
        Option::None => {
            &&& pre.pending().len() == 0
            &&& post.pending() == pre.pending()
            &&& post.processing() == pre.processing()
            &&& post.tasks() == pre.tasks()
            &&& post.results() == pre.results()
        },
        Option::Some(id) => {
            &&& pre.pending().len() > 0
            &&& id == pre.pending()[0]
            &&& post.pending() == pre.pending().drop_first()
            &&& post.processing() == pre.processing().push(id)
            &&& post.tasks() == pre.tasks()
            &&& post.results() == pre.results()
        },
    }
}

/// The acknowledge transition: the reference's single occurrence leaves
/// processing (a no-op when absent); nothing else moves.
pub open spec fn acknowledged(pre: QueueStore, id: u128, post: QueueStore) -> bool {
    &&& post.pending() == pre.pending()
    &&& post.tasks() == pre.tasks()
    &&& post.results() == pre.results()
    &&& !post.processing().contains(id)
    &&& pre.processing().contains(id) ==> post.processing() == pre.processing().remove_value(id)
    &&& !pre.processing().contains(id) ==> post.processing() == pre.processing()
}

/// The recovery transition: every claimed reference returns to the back
/// of pending, in claim order, and processing drains.
pub open spec fn recovered(pre: QueueStore, post: QueueStore) -> bool {
    &&& post.pending() == pre.pending() + pre.processing()
    &&& post.processing().len() == 0
    &&& post.tasks() == pre.tasks()
    &&& post.results() == pre.results()
}

/// The result-write transition: the record is stored under the id;
/// nothing else moves.
pub open spec fn result_written(
    pre: QueueStore,
    id: u128,
    record: ResultRecord,
    post: QueueStore,
) -> bool {
    &&& post.pending() == pre.pending()
    &&& post.processing() == pre.processing()
    &&& post.tasks() == pre.tasks()
    &&& post.results() == pre.results().insert(id, record)
}

/// The removal transition: the id's references, payload and result are
/// all gone, and every other id is untouched.
pub open spec fn removed(pre: QueueStore, id: u128, post: QueueStore) -> bool {
    &&& !post.pending().contains(id)
    &&& !post.processing().contains(id)
    &&& post.pending() == (if pre.pending().contains(id) {
        pre.pending().remove_value(id)
    } else {
        pre.pending()
    })
    &&& post.processing() == (if pre.processing().contains(id) {
        pre.processing().remove_value(id)
    } else {
        pre.processing()
    })
    &&& post.tasks() == pre.tasks().remove(id)
    &&& post.results() == pre.results().remove(id)
}

/// The reset transition: both collections and the result store drain;
/// stored payloads are left to expire on their own.
pub open spec fn cleared(pre: QueueStore, post: QueueStore) -> bool {
    &&& post.pending().len() == 0
    &&& post.processing().len() == 0
    &&& post.results() == Map::<u128, ResultRecord>::empty()
    &&& post.tasks() == pre.tasks()
}

/// A task enqueued under a fresh id is reported pending before any
/// worker touches it.
pub proof fn lemma_enqueue_reports_pending(pre: QueueStore, task: Task, post: QueueStore)
    requires
        pre.inv(),
        !pre.pending().contains(task.id),
        !pre.processing().contains(task.id),
        !pre.results().contains_key(task.id),
        enqueued(pre, task, post),
    ensures
        post.spec_status(task.id) == TaskStatus::Pending,
{
    assert(post.pending()[pre.pending().len() as int] == task.id);
    assert(post.pending().contains(task.id));
}

/// An unresolved task reference is never in pending and processing at
/// the same time.
pub proof fn lemma_reference_exclusive(s: QueueStore, id: u128)
    requires
        s.inv(),
    ensures
        !(s.pending().contains(id) && s.processing().contains(id)),
{
}

/// A task stranded in processing by a crash is back in pending after
/// the recovery sweep, which leaves processing empty.
pub proof fn lemma_recover_restores_stranded(pre: QueueStore, post: QueueStore, id: u128)
    requires
        pre.inv(),
        recovered(pre, post),
        pre.processing().contains(id),
    ensures
        post.pending().contains(id),
        post.processing().len() == 0,
{
    let j = choose|j: int| 0 <= j < pre.processing().len() && pre.processing()[j] == id;
    assert(post.pending()[pre.pending().len() + j] == id);
}

/// After a task is deleted, its status reads absent, whatever it was.
pub proof fn lemma_delete_reports_absent(pre: QueueStore, id: u128, post: QueueStore)
    requires
        removed(pre, id, post),
    ensures
        post.spec_status(id) == TaskStatus::Absent,
{
}

/// After a full reset, no id is visible and every status reads absent.
pub proof fn lemma_clear_leaves_nothing(pre: QueueStore, post: QueueStore, id: u128)
    requires
        cleared(pre, post),
    ensures
        !post.visible(id),
        post.spec_status(id) == TaskStatus::Absent,
{
}

} // verus!

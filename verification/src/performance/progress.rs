//! The state of long operations and their sub-operations, as progress reports read it.

use vstd::prelude::*;

verus! {

/// `std::time::Instant`, carried as an opaque value.
#[verifier::external_type_specification]
#[verifier::external_body]
pub struct ExInstant(std::time::Instant);

/// `Duration::clone`: `Duration` is `Copy`, so its clone is the same span of time.
pub assume_specification[ <std::time::Duration as std::clone::Clone>::clone ](
    d: &std::time::Duration,
) -> (r: std::time::Duration)
    ensures
        r == *d,
;

/// Identifies an operation or a sub-operation.
#[derive(Debug, Clone, Copy, PartialEq, Eq, Structural)]
pub struct OperationId(u64);

impl OperationId {
    /// The number that identifies the operation.
    pub closed spec fn value(&self) -> u64 {
        self.0
    }

    /// The identifier numbered `value`.
    pub fn new(value: u64) -> (r: Self)
        ensures
            r.value() == value,
    {
        OperationId(value)
    }

    /// The number that identifies the operation.
    pub fn get(&self) -> (r: u64)
        ensures
            r == self.value(),
    {
        self.0
    }
}

/// Where an operation stands.
#[derive(Debug, Clone, Copy, PartialEq, Eq, Structural)]
pub enum OperationStatus {
    Running,
    Completed,
    Failed,
}

/// A part of an operation, with its own amount of work.
#[derive(Debug)]
pub struct SubOperation {
    pub id: OperationId,
    pub name: String,
    pub total_work: u64,
    pub completed_work: u64,
    pub status: OperationStatus,
}

/// An operation being tracked: its work done out of its total, when it started and was
/// last updated, its status, its parts and the error it failed with.
#[derive(Debug)]
pub struct Operation {
    pub id: OperationId,
    pub name: String,
    pub total_work: u64,
    pub completed_work: u64,
    pub start_time: std::time::Instant,
    pub last_update: std::time::Instant,
    pub status: OperationStatus,
    pub sub_operations: Vec<SubOperation>,
    pub error_message: Option<String>,
}

/// The operations being tracked, oldest first.
#[derive(Debug)]
pub struct ProgressState {
    pub operations: Vec<Operation>,
}

/// A sub-operation as a progress report shows it.
#[derive(Debug, Clone)]
pub struct SubOperationInfo {
    pub id: OperationId,
    pub name: String,
    pub progress_percent: u32,
    pub status: OperationStatus,
}

/// An operation as a progress report shows it: its share of work done, how long it has run
/// and how long it may still take.
#[derive(Debug, Clone)]
pub struct OperationInfo {
    pub id: OperationId,
    pub name: String,
    pub progress_percent: u32,
    pub completed_work: u64,
    pub total_work: u64,
    pub elapsed: std::time::Duration,
    pub eta: Option<std::time::Duration>,
    pub status: OperationStatus,
    pub sub_operations: Vec<SubOperationInfo>,
    pub error_message: Option<String>,
}

/// A progress report: every operation tracked, oldest first.
#[derive(Debug, Clone)]
pub struct ProgressInfo {
    pub operations: Vec<OperationInfo>,
}

/// `i` is the position of the first operation of `ops` with identifier `id`.
pub open spec fn is_first_op(ops: Seq<Operation>, id: OperationId, i: int) -> bool {
    &&& 0 <= i < ops.len()
    &&& ops[i].id == id
    &&& forall|j: int| 0 <= j < i ==> ops[j].id != id
}

/// The position of the operation `id` (the first one, should two share it).
pub open spec fn op_position(ops: Seq<Operation>, id: OperationId) -> Option<int> {
    if exists|i: int| is_first_op(ops, id, i) {
        Some(choose|i: int| is_first_op(ops, id, i))
    } else {
        None
    }
}

/// `i` is the position of the first sub-operation of `subs` with identifier `id`.
pub open spec fn is_first_sub(subs: Seq<SubOperation>, id: OperationId, i: int) -> bool {
    &&& 0 <= i < subs.len()
    &&& subs[i].id == id
    &&& forall|j: int| 0 <= j < i ==> subs[j].id != id
}

/// The position of the sub-operation `id` (the first one, should two share it).
pub open spec fn sub_position(subs: Seq<SubOperation>, id: OperationId) -> Option<int> {
    if exists|i: int| is_first_sub(subs, id, i) {
        Some(choose|i: int| is_first_sub(subs, id, i))
    } else {
        None
    }
}

/// No operation or sub-operation has done more than its total work.
pub open spec fn work_within_totals(ops: Seq<Operation>) -> bool {
    forall|i: int|
        0 <= i < ops.len() ==> {
            &&& #[trigger] ops[i].completed_work <= ops[i].total_work
            &&& forall|j: int|
                0 <= j < ops[i].sub_operations@.len() ==> #[trigger] ops[i].sub_operations@[j].completed_work
                    <= ops[i].sub_operations@[j].total_work
        }
}

/// The operations that are still running, in order.
pub open spec fn running_only(ops: Seq<Operation>) -> Seq<Operation>
    decreases ops.len(),
{
    if ops.len() == 0 {
        seq![]
    } else if ops.last().status == OperationStatus::Running {
        running_only(ops.drop_last()).push(ops.last())
    } else {
        running_only(ops.drop_last())
    }
}

/// `a` and `b` are the same operation but for the fields that the caller states.
pub open spec fn same_identity(a: Operation, b: Operation) -> bool {
    &&& a.id == b.id
    &&& a.total_work == b.total_work
    &&& a.start_time == b.start_time
}

impl ProgressState {
    /// No operation.
    pub fn new() -> (r: Self)
        ensures
            r.operations@.len() == 0,
    {
        ProgressState { operations: Vec::new() }
    }

    /// The position of the operation `id`.
    pub fn find_operation(&self, id: OperationId) -> (r: Option<usize>)
        ensures
            match r {
                Some(i) => op_position(self.operations@, id) == Some(i as int),
                None => op_position(self.operations@, id) is None,
            },
    {
        let mut i: usize = 0;
        while i < self.operations.len()
            invariant
                i <= self.operations@.len(),
                forall|j: int| 0 <= j < i ==> self.operations@[j].id != id,
            decreases self.operations@.len() - i,
        {
            if self.operations[i].id.0 == id.0 {
                proof {
                    assert(is_first_op(self.operations@, id, i as int));
                    let q = choose|q: int| is_first_op(self.operations@, id, q);
                    assert(is_first_op(self.operations@, id, q));
                    assert(q == i);
                }
                return Some(i);
            }
            i += 1;
        }
        None
    }

    /// Starts tracking the operation `id`, running, with no work done, at `now`.
    pub fn start_operation(&mut self, id: OperationId, name: &str, total_work: u64, now: std::time::Instant)
        requires
            work_within_totals(old(self).operations@),
        ensures
            work_within_totals(final(self).operations@),
            final(self).operations@.len() == old(self).operations@.len() + 1,
            final(self).operations@.drop_last() == old(self).operations@,
            ({
                let op = final(self).operations@.last();
                &&& op.id == id
                &&& op.name@ == name@
                &&& op.total_work == total_work
                &&& op.completed_work == 0
                &&& op.start_time == now
                &&& op.last_update == now
                &&& op.status == OperationStatus::Running
                &&& op.sub_operations@.len() == 0
                &&& op.error_message is None
            }),
    {
        let operation = Operation {
            id,
            name: name.to_string(),
            total_work,
            completed_work: 0,
            start_time: now,
            last_update: now,
            status: OperationStatus::Running,
            sub_operations: Vec::new(),
            error_message: None,
        };
        self.operations.push(operation);
        assert(self.operations@.drop_last() =~= old(self).operations@);
        assert forall|i: int| 0 <= i < self.operations@.len() implies #[trigger] self.operations@[i].completed_work
            <= self.operations@[i].total_work && forall|j: int|
            0 <= j < self.operations@[i].sub_operations@.len() ==> #[trigger] self.operations@[i].sub_operations@[j].completed_work
                <= self.operations@[i].sub_operations@[j].total_work by {
            if i < old(self).operations@.len() {
                assert(self.operations@[i] == old(self).operations@[i]);
            }
        }
    }

    /// Records `completed_work` (at most the total) for the operation `id` at `now`, renaming
    /// it to `message` when one is given. `None` when there is no such operation; else
    /// whether its work is now complete.
    pub fn update_progress(
        &mut self,
        id: OperationId,
        completed_work: u64,
        message: Option<&str>,
        now: std::time::Instant,
    ) -> (r: Option<bool>)
        requires
            work_within_totals(old(self).operations@),
        ensures
            work_within_totals(final(self).operations@),
            match op_position(old(self).operations@, id) {
                None => r is None && final(self).operations@ == old(self).operations@,
                Some(i) => {
                    let o = old(self).operations@[i];
                    let n = final(self).operations@[i];
                    &&& final(self).operations@ == old(self).operations@.update(i, n)
                    &&& same_identity(o, n)
                    &&& n.completed_work == (if completed_work < o.total_work {
                        completed_work
                    } else {
                        o.total_work
                    })
                    &&& n.last_update == now
                    &&& n.name@ == (match message {
                        Some(m) => m@,
                        None => o.name@,
                    })
                    &&& n.status == o.status
                    &&& n.sub_operations == o.sub_operations
                    &&& n.error_message == o.error_message
                    &&& r == Some(n.completed_work == n.total_work)
                },
            },
    {
        let i = match self.find_operation(id) {
            Some(i) => i,
            None => {
                return None;
            },
        };
        let mut op = self.operations.remove(i);
        op.completed_work = if completed_work < op.total_work {
            completed_work
        } else {
            op.total_work
        };
        op.last_update = now;
        match message {
            Some(m) => {
                op.name = m.to_string();
            },
            None => {},
        }
        let done = op.completed_work == op.total_work;
        self.operations.insert(i, op);
        proof {
            assert(self.operations@ =~= old(self).operations@.update(i as int, self.operations@[i as int]));
            self.lemma_update_keeps_totals(old(self).operations@, i as int);
        }
        Some(done)
    }

    /// Marks the operation `id` completed with all its work done; false when there is no
    /// such operation.
    pub fn complete_operation(&mut self, id: OperationId) -> (r: bool)
        requires
            work_within_totals(old(self).operations@),
        ensures
            work_within_totals(final(self).operations@),
            match op_position(old(self).operations@, id) {
                None => !r && final(self).operations@ == old(self).operations@,
                Some(i) => {
                    let o = old(self).operations@[i];
                    let n = final(self).operations@[i];
                    &&& r
                    &&& final(self).operations@ == old(self).operations@.update(i, n)
                    &&& same_identity(o, n)
                    &&& n.status == OperationStatus::Completed
                    &&& n.completed_work == o.total_work
                    &&& n.name == o.name
                    &&& n.last_update == o.last_update
                    &&& n.sub_operations == o.sub_operations
                    &&& n.error_message == o.error_message
                },
            },
    {
        let i = match self.find_operation(id) {
            Some(i) => i,
            None => {
                return false;
            },
        };
        let mut op = self.operations.remove(i);
        op.status = OperationStatus::Completed;
        op.completed_work = op.total_work;
        self.operations.insert(i, op);
        proof {
            assert(self.operations@ =~= old(self).operations@.update(i as int, self.operations@[i as int]));
            self.lemma_update_keeps_totals(old(self).operations@, i as int);
        }
        true
    }

    /// Marks the operation `id` failed with `error`; false when there is no such operation.
    pub fn fail_operation(&mut self, id: OperationId, error: &str) -> (r: bool)
        requires
            work_within_totals(old(self).operations@),
        ensures
            work_within_totals(final(self).operations@),
            match op_position(old(self).operations@, id) {
                None => !r && final(self).operations@ == old(self).operations@,
                Some(i) => {
                    let o = old(self).operations@[i];
                    let n = final(self).operations@[i];
                    &&& r
                    &&& final(self).operations@ == old(self).operations@.update(i, n)
                    &&& same_identity(o, n)
                    &&& n.status == OperationStatus::Failed
                    &&& (n.error_message matches Some(e) && e@ == error@)
                    &&& n.completed_work == o.completed_work
                    &&& n.name == o.name
                    &&& n.last_update == o.last_update
                    &&& n.sub_operations == o.sub_operations
                },
            },
    {
        let i = match self.find_operation(id) {
            Some(i) => i,
            None => {
                return false;
            },
        };
        let mut op = self.operations.remove(i);
        op.status = OperationStatus::Failed;
        op.error_message = Some(error.to_string());
        self.operations.insert(i, op);
        proof {
            assert(self.operations@ =~= old(self).operations@.update(i as int, self.operations@[i as int]));
            self.lemma_update_keeps_totals(old(self).operations@, i as int);
        }
        true
    }

    /// Adds the sub-operation `sub_id`, running, with no work done, to the operation
    /// `parent_id`; nothing when there is no such operation.
    pub fn add_sub_operation(&mut self, parent_id: OperationId, sub_id: OperationId, name: &str, total_work: u64)
        requires
            work_within_totals(old(self).operations@),
        ensures
            work_within_totals(final(self).operations@),
            match op_position(old(self).operations@, parent_id) {
                None => final(self).operations@ == old(self).operations@,
                Some(i) => {
                    let o = old(self).operations@[i];
                    let n = final(self).operations@[i];
                    let s = n.sub_operations@.last();
                    &&& final(self).operations@ == old(self).operations@.update(i, n)
                    &&& same_identity(o, n)
                    &&& n.completed_work == o.completed_work
                    &&& n.name == o.name
                    &&& n.last_update == o.last_update
                    &&& n.status == o.status
                    &&& n.error_message == o.error_message
                    &&& n.sub_operations@.len() == o.sub_operations@.len() + 1
                    &&& n.sub_operations@.drop_last() == o.sub_operations@
                    &&& s.id == sub_id
                    &&& s.name@ == name@
                    &&& s.total_work == total_work
                    &&& s.completed_work == 0
                    &&& s.status == OperationStatus::Running
                },
            },
    {
        let i = match self.find_operation(parent_id) {
            Some(i) => i,
            None => {
                return;
            },
        };
        let mut op = self.operations.remove(i);
        let ghost old_subs = op.sub_operations@;
        op.sub_operations.push(
            SubOperation {
                id: sub_id,
                name: name.to_string(),
                total_work,
                completed_work: 0,
                status: OperationStatus::Running,
            },
        );
        assert(op.sub_operations@.drop_last() =~= old_subs);
        self.operations.insert(i, op);
        proof {
            assert(self.operations@ =~= old(self).operations@.update(i as int, self.operations@[i as int]));
            let n = self.operations@[i as int];
            assert forall|j: int| 0 <= j < n.sub_operations@.len() implies #[trigger] n.sub_operations@[j].completed_work
                <= n.sub_operations@[j].total_work by {
                if j < old_subs.len() {
                    assert(n.sub_operations@[j] == old_subs[j]);
                }
            }
            self.lemma_update_keeps_totals(old(self).operations@, i as int);
        }
    }

    /// Records `completed_work` (at most the total) for the sub-operation `sub_id` of the
    /// operation `parent_id`, and marks it completed once that reaches its total; nothing
    /// when either is missing.
    pub fn update_sub_operation(&mut self, parent_id: OperationId, sub_id: OperationId, completed_work: u64)
        requires
            work_within_totals(old(self).operations@),
        ensures
            work_within_totals(final(self).operations@),
            match op_position(old(self).operations@, parent_id) {
                None => final(self).operations@ == old(self).operations@,
                Some(i) => {
                    let o = old(self).operations@[i];
                    match sub_position(o.sub_operations@, sub_id) {
                        None => final(self).operations@ == old(self).operations@,
                        Some(j) => {
                            let n = final(self).operations@[i];
                            let os = o.sub_operations@[j];
                            let ns = n.sub_operations@[j];
                            &&& final(self).operations@ == old(self).operations@.update(i, n)
                            &&& same_identity(o, n)
                            &&& n.completed_work == o.completed_work
                            &&& n.name == o.name
                            &&& n.last_update == o.last_update
                            &&& n.status == o.status
                            &&& n.error_message == o.error_message
                            &&& n.sub_operations@ == o.sub_operations@.update(j, ns)
                            &&& ns.id == os.id
                            &&& ns.name == os.name
                            &&& ns.total_work == os.total_work
                            &&& ns.completed_work == (if completed_work < os.total_work {
                                completed_work
                            } else {
                                os.total_work
                            })
                            &&& ns.status == (if completed_work >= os.total_work {
                                OperationStatus::Completed
                            } else {
                                os.status
                            })
                        },
                    }
                },
            },
    {
        let i = match self.find_operation(parent_id) {
            Some(i) => i,
            None => {
                return;
            },
        };
        let mut op = self.operations.remove(i);
        let mut j: usize = 0;
        while j < op.sub_operations.len() && op.sub_operations[j].id.0 != sub_id.0
            invariant
                j <= op.sub_operations@.len(),
                forall|k: int| 0 <= k < j ==> op.sub_operations@[k].id != sub_id,
            decreases op.sub_operations@.len() - j,
        {
            j += 1;
        }
        let found: Option<usize> = if j < op.sub_operations.len() {
            Some(j)
        } else {
            None
        };
        let ghost old_subs = op.sub_operations@;
        match found {
            None => {
                assert(sub_position(old_subs, sub_id) is None);
            },
            Some(k) => {
                proof {
                    assert(is_first_sub(old_subs, sub_id, k as int));
                    let q = choose|q: int| is_first_sub(old_subs, sub_id, q);
                    assert(is_first_sub(old_subs, sub_id, q));
                    assert(q == k);
                }
                let mut sub = op.sub_operations.remove(k);
                sub.completed_work = if completed_work < sub.total_work {
                    completed_work
                } else {
                    sub.total_work
                };
                if completed_work >= sub.total_work {
                    sub.status = OperationStatus::Completed;
                }
                op.sub_operations.insert(k, sub);
                assert(op.sub_operations@ =~= old_subs.update(k as int, op.sub_operations@[k as int]));
            },
        }
        self.operations.insert(i, op);
        proof {
            assert(self.operations@ =~= old(self).operations@.update(i as int, self.operations@[i as int]));
            let n = self.operations@[i as int];
            assert forall|j: int| 0 <= j < n.sub_operations@.len() implies #[trigger] n.sub_operations@[j].completed_work
                <= n.sub_operations@[j].total_work by {
                assert(old(self).operations@[i as int].sub_operations@[j].completed_work
                    <= old(self).operations@[i as int].sub_operations@[j].total_work);
            }
            self.lemma_update_keeps_totals(old(self).operations@, i as int);
        }
        proof {
            if found is None {
                assert(self.operations@ =~= old(self).operations@);
            }
        }
    }

    /// Drops the operations that completed or failed, keeping the others in order.
    pub fn cleanup_completed(&mut self)
        requires
            work_within_totals(old(self).operations@),
        ensures
            work_within_totals(final(self).operations@),
            final(self).operations@ == running_only(old(self).operations@),
    {
        let mut kept: Vec<Operation> = Vec::new();
        let mut rest: Vec<Operation> = Vec::new();
        std::mem::swap(&mut rest, &mut self.operations);
        let ghost all = rest@;
        let ghost mut taken: Seq<Operation> = seq![];
        while rest.len() > 0
            invariant
                all == old(self).operations@,
                taken + rest@ == all,
                kept@ == running_only(taken),
                work_within_totals(all),
            decreases rest@.len(),
        {
            let op = rest.remove(0);
            proof {
                assert(taken.push(op) + rest@ =~= all);
                assert((taken.push(op)).drop_last() =~= taken);
            }
            let ghost t2 = taken.push(op);
            if op.status == OperationStatus::Running {
                kept.push(op);
            }
            proof {
                taken = t2;
            }
        }
        assert(taken =~= all);
        self.operations = kept;
        proof {
            lemma_running_only_within(all);
        }
    }

    /// Changing one operation into one that keeps within its totals keeps the whole state
    /// within its totals.
    proof fn lemma_update_keeps_totals(&self, before: Seq<Operation>, i: int)
        requires
            work_within_totals(before),
            0 <= i < before.len(),
            self.operations@ == before.update(i, self.operations@[i]),
            self.operations@[i].completed_work <= self.operations@[i].total_work,
            self.operations@[i].sub_operations@ == before[i].sub_operations@ || forall|j: int|
                0 <= j < self.operations@[i].sub_operations@.len() ==> #[trigger] self.operations@[i].sub_operations@[j].completed_work
                    <= self.operations@[i].sub_operations@[j].total_work,
        ensures
            work_within_totals(self.operations@),
    {
        assert(before[i].completed_work <= before[i].total_work);
        assert forall|k: int| 0 <= k < self.operations@.len() implies #[trigger] self.operations@[k].completed_work
            <= self.operations@[k].total_work && forall|j: int|
            0 <= j < self.operations@[k].sub_operations@.len() ==> #[trigger] self.operations@[k].sub_operations@[j].completed_work
                <= self.operations@[k].sub_operations@[j].total_work by {
            if k != i {
                assert(self.operations@[k] == before[k]);
            }
        }
    }
}

/// The running operations of a state within its totals are within their totals.
proof fn lemma_running_only_within(ops: Seq<Operation>)
    requires
        work_within_totals(ops),
    ensures
        work_within_totals(running_only(ops)),
        forall|k: int| 0 <= k < running_only(ops).len() ==> #[trigger] running_only(ops)[k].status
            == OperationStatus::Running,
    decreases ops.len(),
{
    if ops.len() > 0 {
        let prev = ops.drop_last();
        assert(work_within_totals(prev)) by {
            assert forall|k: int| 0 <= k < prev.len() implies #[trigger] prev[k].completed_work
                <= prev[k].total_work && forall|j: int|
                0 <= j < prev[k].sub_operations@.len() ==> #[trigger] prev[k].sub_operations@[j].completed_work
                    <= prev[k].sub_operations@[j].total_work by {
                assert(prev[k] == ops[k]);
            }
        }
        lemma_running_only_within(prev);
        let r = running_only(ops);
        let rp = running_only(prev);
        if ops.last().status == OperationStatus::Running {
            assert forall|k: int| 0 <= k < r.len() implies #[trigger] r[k].completed_work
                <= r[k].total_work && forall|j: int|
                0 <= j < r[k].sub_operations@.len() ==> #[trigger] r[k].sub_operations@[j].completed_work
                    <= r[k].sub_operations@[j].total_work by {
                if k < rp.len() {
                    assert(r[k] == rp[k]);
                } else {
                    assert(r[k] == ops[ops.len() - 1]);
                }
            }
            assert forall|k: int| 0 <= k < r.len() implies #[trigger] r[k].status
                == OperationStatus::Running by {
                if k < rp.len() {
                    assert(r[k] == rp[k]);
                }
            }
        }
    }
}

} // verus!

use vstd::prelude::*;
use crate::account::{Account, bytes_eq};

verus! {

/// One day, in nanoseconds.
pub const ONE_DAY: u64 = 86_400_000_000_000;

/// How long after its `eta` a queued task may still run: 14 days.
pub const GRACE_PERIOD: u64 = 1_209_600_000_000_000;

/// Recommended least timelock delay: 2 days.
pub const MIN_DELAY: u64 = 172_800_000_000_000;

/// Recommended greatest timelock delay: 30 days.
pub const MAX_DELAY: u64 = 2_592_000_000_000_000;

/// What identifies a task: all of its fields.
pub struct TaskModel {
    pub target: Seq<u8>,
    pub method: Seq<char>,
    pub arguments: Seq<u8>,
    pub cycles: u64,
    pub eta: u64,
}

/// A call that a passed proposal makes once its timelock has run.
#[derive(Clone, Debug)]
pub struct Task {
    /// The component called.
    pub target: Account,
    /// The method called.
    pub method: String,
    /// The encoded arguments.
    pub arguments: Vec<u8>,
    /// The resource budget attached to the call.
    pub cycles: u64,
    /// When the task may first run; 0 until it is queued.
    pub eta: u64,
}

impl View for Task {
    type V = TaskModel;

    open spec fn view(&self) -> TaskModel {
        TaskModel {
            target: self.target@,
            method: self.method@,
            arguments: self.arguments@,
            cycles: self.cycles,
            eta: self.eta,
        }
    }
}

impl Task {
    /// A task that is not yet queued.
    pub fn new(target: Account, method: String, arguments: Vec<u8>, cycles: u64) -> (r: Task)
        ensures
            r@ == (TaskModel { target: target@, method: method@, arguments: arguments@, cycles, eta: 0 }),
    {
        Task { target, method, arguments, cycles, eta: 0 }
    }

    /// A copy with the same fields.
    pub fn duplicate(&self) -> (r: Task)
        ensures
            r@ == self@,
    {
        let arguments = self.arguments.clone();
        assert(arguments@ =~= self.arguments@);
        Task {
            target: self.target.duplicate(),
            method: self.method.clone(),
            arguments,
            cycles: self.cycles,
            eta: self.eta,
        }
    }

    /// Whether two tasks have the same fields.
    pub fn same(&self, o: &Task) -> (r: bool)
        ensures
            r == (self@ == o@),
    {
        self.target == o.target && self.method == o.method && bytes_eq(&self.arguments, &o.arguments)
            && self.cycles == o.cycles && self.eta == o.eta
    }
}

/// Why the timelock refused to release a task.
#[derive(Clone, Copy, Debug, PartialEq, Eq, Structural)]
pub enum TimelockError {
    /// The task is not in the queue.
    NotQueued,
    /// The task's `eta` has not come.
    TooEarly,
    /// The task's grace period has passed.
    Stale,
}

/// A delay, and the set of tasks waiting for it.
#[derive(Clone, Debug)]
pub struct Timelock {
    delay: u64,
    queued_transactions: Vec<Task>,
}

impl Timelock {
    /// The queued tasks.
    pub closed spec fn tasks(&self) -> Set<TaskModel> {
        Set::new(|t: TaskModel| exists|i: int| 0 <= i < self.queued_transactions@.len() && #[trigger] self.queued_transactions@[i]@ == t)
    }

    /// The delay between queuing a task and its `eta`.
    pub closed spec fn spec_delay(&self) -> u64 {
        self.delay
    }

    pub fn delay(&self) -> (r: u64)
        ensures
            r == self.spec_delay(),
    {
        self.delay
    }

    /// No task is queued twice.
    pub closed spec fn wf(&self) -> bool {
        forall|i: int, j: int| 0 <= i < j < self.queued_transactions@.len()
            ==> #[trigger] self.queued_transactions@[i]@ != #[trigger] self.queued_transactions@[j]@
    }

    /// The window in which a task may be released, as of `now`.
    pub open spec fn ready(t: TaskModel, now: u64) -> bool {
        t.eta <= now && now <= t.eta + GRACE_PERIOD
    }

    /// A timelock with the given delay and nothing queued.
    pub fn new(delay: u64) -> (r: Timelock)
        ensures
            r.wf(),
            r.spec_delay() == delay,
            r.tasks() == Set::<TaskModel>::empty(),
    {
        let r = Timelock { delay, queued_transactions: Vec::new() };
        assert(r.tasks() =~= Set::<TaskModel>::empty());
        r
    }

    pub fn set_delay(&mut self, delay: u64)
        ensures
            final(self).spec_delay() == delay,
            final(self).tasks() == old(self).tasks(),
            old(self).wf() ==> final(self).wf(),
    {
        self.delay = delay;
    }

    fn find(&self, task: &Task) -> (r: Option<usize>)
        ensures
            r matches Some(i) ==> i < self.queued_transactions@.len() && self.queued_transactions@[i as int]@ == task@,
            r is None <==> !self.tasks().contains(task@),
    {
        let mut i: usize = 0;
        while i < self.queued_transactions.len()
            invariant
                i <= self.queued_transactions@.len(),
                forall|j: int| 0 <= j < i ==> #[trigger] self.queued_transactions@[j]@ != task@,
            decreases self.queued_transactions@.len() - i,
        {
            if self.queued_transactions[i].same(task) {
                assert(self.tasks().contains(task@));
                return Some(i);
            }
            i = i + 1;
        }
        None
    }

    /// Whether `task` is queued.
    pub fn contains(&self, task: &Task) -> (r: bool)
        ensures
            r == self.tasks().contains(task@),
    {
        self.find(task).is_some()
    }

    /// Adds `task` to the queue; queuing a task twice changes nothing.
    pub fn queue_transaction(&mut self, task: Task)
        requires
            old(self).wf(),
        ensures
            final(self).wf(),
            final(self).spec_delay() == old(self).spec_delay(),
            final(self).tasks() == old(self).tasks().insert(task@),
    {
        if self.find(&task).is_none() {
            let ghost old_q = self.queued_transactions@;
            let ghost t = task@;
            self.queued_transactions.push(task);
            assert forall|i: int| 0 <= i < old_q.len() implies #[trigger] self.queued_transactions@[i] == old_q[i] by {};
            assert(self.queued_transactions@[old_q.len() as int]@ == t);
            assert forall|x: TaskModel| self.tasks().contains(x) <==> old(self).tasks().insert(t).contains(x) by {
                if old(self).tasks().contains(x) {
                    let j = choose|j: int| 0 <= j < old_q.len() && #[trigger] old_q[j]@ == x;
                    assert(self.queued_transactions@[j]@ == x);
                }
                if self.tasks().contains(x) {
                    let j = choose|j: int| 0 <= j < self.queued_transactions@.len() && #[trigger] self.queued_transactions@[j]@ == x;
                    if j < old_q.len() {
                        assert(old_q[j]@ == x);
                    }
                }
            };
            assert(self.tasks() =~= old(self).tasks().insert(t));
        } else {
            assert(self.tasks() =~= old(self).tasks().insert(task@));
        }
    }

    /// Removes `task` from the queue, if it is there.
    pub fn cancel_transaction(&mut self, task: &Task)
        requires
            old(self).wf(),
        ensures
            final(self).wf(),
            final(self).spec_delay() == old(self).spec_delay(),
            final(self).tasks() == old(self).tasks().remove(task@),
    {
        match self.find(task) {
            Some(i) => {
                let ghost old_q = self.queued_transactions@;
                let _ = self.queued_transactions.remove(i);
                assert forall|j: int| 0 <= j < self.queued_transactions@.len() implies
                    #[trigger] self.queued_transactions@[j] == (if j < i { old_q[j] } else { old_q[j + 1] }) by {};
                assert forall|t: TaskModel| self.tasks().contains(t) <==> old(self).tasks().remove(task@).contains(t) by {
                    if old(self).tasks().remove(task@).contains(t) {
                        let j = choose|j: int| 0 <= j < old_q.len() && #[trigger] old_q[j]@ == t;
                        assert(j != i);
                        if j < i {
                            assert(self.queued_transactions@[j]@ == t);
                        } else {
                            assert(self.queued_transactions@[j - 1]@ == t);
                        }
                    }
                    if self.tasks().contains(t) {
                        let j = choose|j: int| 0 <= j < self.queued_transactions@.len() && #[trigger] self.queued_transactions@[j]@ == t;
                        if j < i {
                            assert(old_q[j]@ == t);
                            assert(t != task@);
                        } else {
                            assert(old_q[j + 1]@ == t);
                            assert(t != task@);
                        }
                    }
                };
                assert(self.tasks() =~= old(self).tasks().remove(task@));
            },
            None => {
                assert(self.tasks() =~= old(self).tasks().remove(task@));
            },
        }
    }

    /// Releases `task` for running: it must be queued and inside its window
    /// `[eta, eta + GRACE_PERIOD]`; it then leaves the queue.
    /// On failure nothing changes.
    pub fn pre_execute_transaction(&mut self, task: &Task, now: u64) -> (r: Result<(), TimelockError>)
        requires
            old(self).wf(),
        ensures
            final(self).wf(),
            final(self).spec_delay() == old(self).spec_delay(),
            r is Ok <==> old(self).tasks().contains(task@) && Self::ready(task@, now),
            r is Ok ==> final(self).tasks() == old(self).tasks().remove(task@),
            r is Err ==> *final(self) == *old(self),
            r == Err::<(), TimelockError>(TimelockError::NotQueued) <==> !old(self).tasks().contains(task@),
            r == Err::<(), TimelockError>(TimelockError::TooEarly) <==> old(self).tasks().contains(task@) && now < task.eta,
            r == Err::<(), TimelockError>(TimelockError::Stale) <==> old(self).tasks().contains(task@) && task.eta <= now
                && now > task.eta + GRACE_PERIOD,
    {
        if !self.contains(task) {
            return Err(TimelockError::NotQueued);
        }
        if now < task.eta {
            return Err(TimelockError::TooEarly);
        }
        if now - task.eta > GRACE_PERIOD {
            return Err(TimelockError::Stale);
        }
        self.cancel_transaction(task);
        Ok(())
    }

    /// Ends a run: a failed run puts the task back in the queue, a successful one leaves it out.
    pub fn post_execute_transaction(&mut self, task: Task, success: bool)
        requires
            old(self).wf(),
        ensures
            final(self).wf(),
            final(self).spec_delay() == old(self).spec_delay(),
            success ==> final(self).tasks() == old(self).tasks(),
            !success ==> final(self).tasks() == old(self).tasks().insert(task@),
    {
        if !success {
            self.queue_transaction(task);
        }
    }
}

impl Default for Timelock {
    fn default() -> (r: Timelock)
        ensures
            r.wf(),
            r.spec_delay() == 0,
            r.tasks() == Set::<TaskModel>::empty(),
    {
        Timelock::new(0)
    }
}

} // verus!

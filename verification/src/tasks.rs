//! What the owner's tasks have been **paid**.
//!
//! Whether a task is finished cannot be derived from its counter (a shortcut
//! finishes a task the count never reached, and a ladder pays rung by rung), so
//! the server publishes what it paid and a reader draws that.

use vstd::prelude::*;

verus! {

/// Which of a unit's tasks a record is about, in opaque terms.
#[derive(Clone, Copy, Debug, PartialEq, Eq, PartialOrd, Ord, Hash, Structural)]
pub enum TaskRef {
    /// The task set by the talent with this opaque (mod-global) handle.
    Talent(u32),
    /// The unit's own task at this position in its descriptor.
    Own(u32),
}

/// One task's paid record: which task, and how far it has been paid.
#[derive(Clone, Copy, Debug, PartialEq, Eq, Structural)]
pub struct TaskPaid {
    /// Which of the owner's tasks this is about.
    pub task: TaskRef,
    /// How many rungs have been handed over.
    pub rungs: u32,
    /// Whether the shortcut has fired.
    pub shortcut: bool,
}

/// A unit's paid task records, in the server's key order.
#[derive(Clone, Debug, Default, PartialEq, Eq)]
pub struct ReplicatedTasks(pub Vec<TaskPaid>);

impl View for ReplicatedTasks {
    type V = Seq<TaskPaid>;

    open spec fn view(&self) -> Seq<TaskPaid> {
        self.0@
    }
}

/// The first record in `s` about `task`, if any.
pub open spec fn spec_get(s: Seq<TaskPaid>, task: TaskRef) -> Option<TaskPaid>
    decreases s.len(),
{
    if s.len() == 0 {
        None
    } else if s[0].task == task {
        Some(s[0])
    } else {
        spec_get(s.drop_first(), task)
    }
}

/// What `spec_get` finds, by position: the first record about `task`.
pub proof fn lemma_spec_get(s: Seq<TaskPaid>, task: TaskRef)
    ensures
        spec_get(s, task) is None <==> forall|i: int| 0 <= i < s.len() ==> s[i].task != task,
        spec_get(s, task) matches Some(p) ==> exists|i: int|
            0 <= i < s.len() && s[i] == p && p.task == task && forall|j: int|
                0 <= j < i ==> s[j].task != task,
    decreases s.len(),
{
    if s.len() > 0 && s[0].task != task {
        let rest = s.drop_first();
        lemma_spec_get(rest, task);
        assert forall|i: int| 1 <= i < s.len() implies s[i] == rest[i - 1] by {}
        if let Some(p) = spec_get(rest, task) {
            let i = choose|i: int|
                0 <= i < rest.len() && rest[i] == p && p.task == task && forall|j: int|
                    0 <= j < i ==> rest[j].task != task;
            assert(s[i + 1] == p);
            assert forall|j: int| 0 <= j < i + 1 implies s[j].task != task by {
                if j > 0 {
                    assert(s[j] == rest[j - 1]);
                }
            }
        } else {
            assert forall|i: int| 0 <= i < s.len() implies s[i].task != task by {
                if i > 0 {
                    assert(s[i] == rest[i - 1]);
                }
            }
        }
    }
}

impl ReplicatedTasks {
    /// What has been paid for one task, or `None` for a task with no record.
    pub fn get(&self, task: TaskRef) -> (r: Option<TaskPaid>)
        ensures
            r == spec_get(self@, task),
    {
        let mut i: usize = 0;
        assert(self@.skip(0) =~= self@);
        while i < self.0.len()
            invariant
                i <= self.0@.len(),
                spec_get(self@, task) == spec_get(self@.skip(i as int), task),
            decreases self.0@.len() - i,
        {
            let paid = self.0[i];
            proof {
                assert(self@.skip(i as int)[0] == self@[i as int]);
                assert(self@.skip(i as int).drop_first() =~= self@.skip(i + 1));
            }
            if paid.task == task {
                return Some(paid);
            }
            i += 1;
        }
        None
    }

    /// How many rungs of one task have been paid; none for a task with no record.
    pub fn rungs(&self, task: TaskRef) -> (n: u32)
        ensures
            n == match spec_get(self@, task) {
                Some(p) => p.rungs,
                None => 0,
            },
    {
        match self.get(task) {
            Some(paid) => paid.rungs,
            None => 0,
        }
    }

    /// Whether one task's shortcut has fired.
    pub fn shortcut(&self, task: TaskRef) -> (b: bool)
        ensures
            b == match spec_get(self@, task) {
                Some(p) => p.shortcut,
                None => false,
            },
    {
        match self.get(task) {
            Some(paid) => paid.shortcut,
            None => false,
        }
    }
}

} // verus!

//! The task record and the ordered task list, with the operations the
//! interaction cycle performs on them: appending a task, setting its
//! completion flag, and dropping every completed task.

use vstd::prelude::*;

verus! {

/// Mathematical model of a task: its name as a sequence of characters and
/// its completion flag.
#[verifier::ext_equal]
pub ghost struct SpecTask {
    pub name: Seq<char>,
    pub completed: bool,
}

/// A task record: a user-supplied name and a completion flag, initially
/// false.
pub struct Task {
    pub name: String,
    pub completed: bool,
}

impl View for Task {
    type V = SpecTask;

    open spec fn view(&self) -> SpecTask {
        SpecTask { name: self.name@, completed: self.completed }
    }
}

impl Task {
    /// Creates a task with the given name, not yet completed.
    pub fn new(name: String) -> (t: Task)
        ensures
            t@ == (SpecTask { name: name@, completed: false }),
    {
        Task { name, completed: false }
    }

    /// Copies a task record.
    pub fn clone_task(&self) -> (r: Task)
        ensures
            r@ == self@,
    {
        Task { name: self.name.clone(), completed: self.completed }
    }
}

/// The models of a sequence of task records.
pub open spec fn views_of(tasks: Seq<Task>) -> Seq<SpecTask> {
    tasks.map(|i: int, t: Task| t@)
}

/// The subsequence of tasks not yet completed, in their original order.
pub open spec fn incomplete_of(s: Seq<SpecTask>) -> Seq<SpecTask>
    decreases s.len(),
{
    if s.len() == 0 {
        Seq::empty()
    } else if s[0].completed {
        incomplete_of(s.skip(1))
    } else {
        seq![s[0]] + incomplete_of(s.skip(1))
    }
}

/// An ordered list of tasks; new tasks append at the end and display order
/// follows the sequence.
pub struct TaskList {
    pub tasks: Vec<Task>,
}

impl View for TaskList {
    type V = Seq<SpecTask>;

    open spec fn view(&self) -> Seq<SpecTask> {
        views_of(self.tasks@)
    }
}

impl TaskList {
    /// Creates an empty task list.
    pub fn new() -> (r: TaskList)
        ensures
            r@ == Seq::<SpecTask>::empty(),
    {
        let r = TaskList { tasks: Vec::new() };
        proof {
            assert(r@ =~= Seq::<SpecTask>::empty());
        }
        r
    }

    /// The number of tasks, completed ones included.
    pub fn len(&self) -> (n: usize)
        ensures
            n == self@.len(),
    {
        self.tasks.len()
    }

    /// The name of the task at position `i`.
    pub fn name_at(&self, i: usize) -> (r: &str)
        requires
            i < self@.len(),
        ensures
            r@ == self@[i as int].name,
    {
        self.tasks[i].name.as_str()
    }

    /// Whether the task at position `i` is completed.
    pub fn is_completed(&self, i: usize) -> (r: bool)
        requires
            i < self@.len(),
        ensures
            r == self@[i as int].completed,
    {
        self.tasks[i].completed
    }

    /// Appends a new incomplete task with the given name. An empty name is
    /// rejected and leaves the list unchanged; no trimming is applied, so a
    /// whitespace-only name is accepted.
    pub fn add_task(&mut self, name: String) -> (added: bool)
        ensures
            added == (name@.len() > 0),
            added ==> final(self)@ == old(self)@.push(
                SpecTask { name: name@, completed: false },
            ),
            !added ==> final(self)@ == old(self)@,
    {
        if name.as_str().is_empty() {
            false
        } else {
            self.tasks.push(Task::new(name));
            proof {
                assert(self@ =~= old(self)@.push(
                    SpecTask { name: name@, completed: false },
                ));
            }
            true
        }
    }

    /// Sets the completion flag of the task at position `i`, leaving every
    /// other task unchanged.
    pub fn set_completed(&mut self, i: usize, done: bool)
        requires
            i < old(self)@.len(),
        ensures
            final(self)@ == old(self)@.update(
                i as int,
                SpecTask { name: old(self)@[i as int].name, completed: done },
            ),
    {
        self.tasks[i].completed = done;
        proof {
            assert(self@ =~= old(self)@.update(
                i as int,
                SpecTask { name: old(self)@[i as int].name, completed: done },
            ));
        }
    }

    /// Removes every completed task, keeping the remaining tasks in order.
    pub fn remove_completed(&mut self)
        ensures
            final(self)@ == incomplete_of(old(self)@),
    {
        let ghost full: Seq<SpecTask> = self@;
        let mut kept: Vec<Task> = Vec::new();
        let mut i: usize = 0;
        let n = self.tasks.len();
        proof {
            assert(full.skip(0) =~= full);
            assert(views_of(kept@) + incomplete_of(full) =~= incomplete_of(full));
        }
        while i < n
            invariant
                i <= n,
                n == self.tasks@.len(),
                self@ == full,
                incomplete_of(full) == views_of(kept@) + incomplete_of(full.skip(i as int)),
            decreases n - i,
        {
            proof {
                assert(full.skip(i as int)[0] == full[i as int]);
                assert(full.skip(i as int).skip(1) =~= full.skip(i as int + 1));
            }
            if !self.tasks[i].completed {
                let ghost prev = kept@;
                kept.push(self.tasks[i].clone_task());
                proof {
                    assert(views_of(kept@) =~= views_of(prev).push(full[i as int]));
                    assert(views_of(prev).push(full[i as int])
                        + incomplete_of(full.skip(i as int + 1))
                        =~= views_of(prev)
                        + (seq![full[i as int]] + incomplete_of(full.skip(i as int + 1))));
                }
            }
            i = i + 1;
        }
        proof {
            assert(full.skip(n as int) =~= Seq::<SpecTask>::empty());
            assert(views_of(kept@) + incomplete_of(full.skip(n as int)) =~= views_of(kept@));
        }
        self.tasks = kept;
    }
}

/// Every task that `incomplete_of` keeps is incomplete.
pub proof fn lemma_incomplete_of_incomplete(s: Seq<SpecTask>)
    ensures
        forall|i: int|
            0 <= i < incomplete_of(s).len() ==> !(#[trigger] incomplete_of(s)[i]).completed,
    decreases s.len(),
{
    if s.len() > 0 {
        lemma_incomplete_of_incomplete(s.skip(1));
        if s[0].completed {
            assert(incomplete_of(s) == incomplete_of(s.skip(1)));
        } else {
            assert(incomplete_of(s) == seq![s[0]] + incomplete_of(s.skip(1)));
            assert forall|i: int|
                0 <= i < incomplete_of(s).len() implies !(#[trigger] incomplete_of(s)[i]).completed by {
                if i == 0 {
                    assert(incomplete_of(s)[0] == s[0]);
                } else {
                    assert(incomplete_of(s)[i] == incomplete_of(s.skip(1))[i - 1]);
                }
            }
        }
    }
}

/// On a list without completed tasks, `incomplete_of` keeps everything.
pub proof fn lemma_incomplete_of_identity(s: Seq<SpecTask>)
    requires
        forall|i: int| 0 <= i < s.len() ==> !(#[trigger] s[i]).completed,
    ensures
        incomplete_of(s) == s,
    decreases s.len(),
{
    if s.len() > 0 {
        assert(forall|i: int|
            0 <= i < s.skip(1).len() ==> !(#[trigger] s.skip(1)[i]).completed);
        lemma_incomplete_of_identity(s.skip(1));
        assert(incomplete_of(s) =~= s);
    } else {
        assert(incomplete_of(s) =~= s);
    }
}

/// Dropping completed tasks is idempotent: a second pass removes nothing.
pub proof fn lemma_incomplete_of_idempotent(s: Seq<SpecTask>)
    ensures
        incomplete_of(incomplete_of(s)) == incomplete_of(s),
{
    lemma_incomplete_of_incomplete(s);
    lemma_incomplete_of_identity(incomplete_of(s));
}

} // verus!

//! A named pipeline: its tasks (kept in name order) and its policies.
use vstd::prelude::*;
use crate::task::{Shell, Task};
use crate::text::{
    lemma_text_asymmetric, lemma_text_irreflexive, lemma_text_total, lemma_text_transitive, str_eq,
    str_lt, str_to_string, text_lt, text_strictly_sorted,
};

verus! {

/// What the pipeline does after a task fails.
#[derive(Clone, Copy, Debug, PartialEq, Eq, Structural)]
pub enum FailurePolicy {
    /// Stop scheduling and cancel running tasks.
    FailFast,
    /// Stop scheduling and let running tasks finish.
    FinishRunning,
    /// Skip what depends on the failure, keep running independent branches.
    ContinueIndependent,
}

impl Default for FailurePolicy {
    fn default() -> (res: Self)
        ensures
            res == FailurePolicy::FinishRunning,
    {
        FailurePolicy::FinishRunning
    }
}

/// Which rollback handlers run after a failure.
#[derive(Clone, Copy, Debug, PartialEq, Eq, Structural)]
pub enum RollbackPolicy {
    /// No rollback handler runs.
    Disabled,
    /// Only the failed task's handler runs.
    FailedTaskOnly,
    /// Completed tasks with handlers are rolled back in reverse completion order.
    CompletedTasksReverseOrder,
}

impl Default for RollbackPolicy {
    fn default() -> (res: Self)
        ensures
            res == RollbackPolicy::FailedTaskOnly,
    {
        RollbackPolicy::FailedTaskOnly
    }
}

impl Default for Shell {
    fn default() -> (res: Self)
        ensures
            res == Shell::Sh,
    {
        Shell::Sh
    }
}

/// The names of a sequence of tasks.
pub open spec fn task_names(tasks: Seq<Task>) -> Seq<Seq<char>> {
    tasks.map_values(|t: Task| t.name@)
}

/// Whether a task of this name is present.
pub open spec fn has_task(tasks: Seq<Task>, name: Seq<char>) -> bool {
    exists|i: int| 0 <= i < tasks.len() && #[trigger] tasks[i].name@ == name
}

/// The task of the given name, if any.
pub open spec fn find_task(tasks: Seq<Task>, name: Seq<char>) -> Option<Task> {
    if has_task(tasks, name) {
        Some(tasks[choose|i: int| 0 <= i < tasks.len() && #[trigger] tasks[i].name@ == name])
    } else {
        None
    }
}

/// Tasks held in strictly increasing name order (so names are distinct).
pub open spec fn tasks_in_order(tasks: Seq<Task>) -> bool {
    text_strictly_sorted(task_names(tasks))
}

/// In a name-ordered sequence, the task of a name sits at exactly one index.
pub proof fn lemma_find_task_index(tasks: Seq<Task>, i: int)
    requires
        tasks_in_order(tasks),
        0 <= i < tasks.len(),
    ensures
        find_task(tasks, tasks[i].name@) == Some(tasks[i]),
        forall|j: int| 0 <= j < tasks.len() && tasks[j].name@ == tasks[i].name@ ==> j == i,
{
    assert forall|j: int| 0 <= j < tasks.len() && tasks[j].name@ == tasks[i].name@ implies j == i by {
        if j < i {
            assert(text_lt(task_names(tasks)[j], task_names(tasks)[i]));
            lemma_text_irreflexive(tasks[i].name@);
        } else if j > i {
            assert(text_lt(task_names(tasks)[i], task_names(tasks)[j]));
            lemma_text_irreflexive(tasks[i].name@);
        }
    }
    assert(has_task(tasks, tasks[i].name@));
}

/// A pipeline: a name, a set of tasks keyed by name, and its policies.
pub struct Pipeline {
    pub(crate) name: String,
    pub(crate) tasks: Vec<Task>,
    pub(crate) failure_policy: FailurePolicy,
    pub(crate) rollback_policy: RollbackPolicy,
    pub(crate) shell: Shell,
}

impl Pipeline {
    #[verifier::type_invariant]
    pub(crate) open spec fn tasks_ordered(self) -> bool {
        tasks_in_order(self.tasks@)
    }

    pub closed spec fn spec_name(&self) -> Seq<char> {
        self.name@
    }

    /// The tasks, in name order.
    pub closed spec fn spec_tasks(&self) -> Seq<Task> {
        self.tasks@
    }

    pub closed spec fn spec_failure_policy(&self) -> FailurePolicy {
        self.failure_policy
    }

    pub closed spec fn spec_rollback_policy(&self) -> RollbackPolicy {
        self.rollback_policy
    }

    pub closed spec fn spec_shell(&self) -> Shell {
        self.shell
    }

    /// Creates an empty pipeline with the default policies and shell.
    pub fn new(name: &str) -> (res: Pipeline)
        ensures
            res.spec_name() == name@,
            res.spec_tasks().len() == 0,
            res.spec_failure_policy() == FailurePolicy::FinishRunning,
            res.spec_rollback_policy() == RollbackPolicy::FailedTaskOnly,
            res.spec_shell() == Shell::Sh,
    {
        Pipeline {
            name: str_to_string(name),
            tasks: Vec::new(),
            failure_policy: FailurePolicy::default(),
            rollback_policy: RollbackPolicy::default(),
            shell: Shell::default(),
        }
    }

    /// Sets the failure policy.
    pub fn failure_policy(self, policy: FailurePolicy) -> (res: Pipeline)
        ensures
            res.spec_failure_policy() == policy,
            res.spec_name() == self.spec_name(),
            res.spec_tasks() == self.spec_tasks(),
            res.spec_rollback_policy() == self.spec_rollback_policy(),
            res.spec_shell() == self.spec_shell(),
    {
        proof {
            use_type_invariant(&self);
        }
        Pipeline { failure_policy: policy, ..self }
    }

    /// Sets the rollback policy.
    pub fn rollback_policy(self, policy: RollbackPolicy) -> (res: Pipeline)
        ensures
            res.spec_rollback_policy() == policy,
            res.spec_name() == self.spec_name(),
            res.spec_tasks() == self.spec_tasks(),
            res.spec_failure_policy() == self.spec_failure_policy(),
            res.spec_shell() == self.spec_shell(),
    {
        proof {
            use_type_invariant(&self);
        }
        Pipeline { rollback_policy: policy, ..self }
    }

    /// Sets the default shell of shell tasks.
    pub fn shell(self, shell: Shell) -> (res: Pipeline)
        ensures
            res.spec_shell() == shell,
            res.spec_name() == self.spec_name(),
            res.spec_tasks() == self.spec_tasks(),
            res.spec_failure_policy() == self.spec_failure_policy(),
            res.spec_rollback_policy() == self.spec_rollback_policy(),
    {
        proof {
            use_type_invariant(&self);
        }
        Pipeline { shell, ..self }
    }

    /// Adds a task; a task of the same name is replaced.
    pub fn add(&mut self, task: Task)
        ensures
            forall|n: Seq<char>|
                #![trigger find_task(final(self).spec_tasks(), n)]
                find_task(final(self).spec_tasks(), n) == if n == task.name@ {
                    Some(task)
                } else {
                    find_task(old(self).spec_tasks(), n)
                },
            final(self).spec_name() == old(self).spec_name(),
            final(self).spec_failure_policy() == old(self).spec_failure_policy(),
            final(self).spec_rollback_policy() == old(self).spec_rollback_policy(),
            final(self).spec_shell() == old(self).spec_shell(),
    {
        proof {
            use_type_invariant(&*self);
        }
        let mut tasks = Vec::new();
        std::mem::swap(&mut tasks, &mut self.tasks);
        let ghost old_tasks = tasks@;
        let mut p: usize = 0;
        while p < tasks.len() && str_lt(tasks[p].name.as_str(), task.name.as_str())
            invariant
                p <= tasks@.len(),
                tasks@ == old_tasks,
                forall|i: int| 0 <= i < p ==> text_lt(#[trigger] tasks@[i].name@, task.name@),
            decreases tasks@.len() - p,
        {
            p = p + 1;
        }
        let ghost tname = task.name@;
        let replace = p < tasks.len() && str_eq(tasks[p].name.as_str(), task.name.as_str());
        if replace {
            tasks.set(p, task);
        } else {
            tasks.insert(p, task);
        }
        proof {
            let o = task_names(old_tasks);
            let s = task_names(tasks@);
            if replace {
                assert forall|i: int, j: int| 0 <= i < j < s.len() implies text_lt(
                    #[trigger] s[i],
                    #[trigger] s[j],
                ) by {
                    assert(o[i] == old_tasks[i].name@ && o[j] == old_tasks[j].name@);
                    assert(text_lt(o[i], o[j]));
                    if i == p {
                        assert(s[i] == o[i]);
                    }
                    if j == p {
                        assert(s[j] == o[j]);
                    }
                }
            } else {
                assert forall|i: int, j: int| 0 <= i < j < s.len() implies text_lt(
                    #[trigger] s[i],
                    #[trigger] s[j],
                ) by {
                    if j < p {
                        assert(s[i] == o[i] && s[j] == o[j]);
                    } else if i > p {
                        assert(s[i] == o[i - 1] && s[j] == o[j - 1]);
                    } else if i == p {
                        assert(s[i] == tname && s[j] == o[j - 1]);
                        assert(o[p as int] == old_tasks[p as int].name@);
                        assert(!text_lt(o[p as int], tname) && o[p as int] != tname);
                        lemma_text_total(o[p as int], tname);
                        if j - 1 > p {
                            assert(text_lt(o[p as int], o[j - 1]));
                            lemma_text_transitive(tname, o[p as int], o[j - 1]);
                        }
                    } else if j == p {
                        assert(s[j] == tname && s[i] == o[i]);
                        assert(o[i] == old_tasks[i].name@);
                    } else {
                        assert(s[i] == o[i] && s[j] == o[j - 1]);
                    }
                }
            }
            assert(tasks_in_order(tasks@));
            assert forall|n: Seq<char>|
                #![trigger find_task(tasks@, n)]
                find_task(tasks@, n) == if n == tname {
                    Some(task)
                } else {
                    find_task(old_tasks, n)
                } by {
                lemma_find_task_index(tasks@, p as int);
                if n != tname {
                    if has_task(old_tasks, n) {
                        let i = choose|i: int| 0 <= i < old_tasks.len() && #[trigger] old_tasks[i].name@ == n;
                        lemma_find_task_index(old_tasks, i);
                        let k = if replace || i < p { i } else { i + 1 };
                        assert(tasks@[k] == old_tasks[i]);
                        lemma_find_task_index(tasks@, k);
                    }
                    if has_task(tasks@, n) {
                        let k = choose|k: int| 0 <= k < tasks@.len() && #[trigger] tasks@[k].name@ == n;
                        let i = if replace || k < p { k } else { k - 1 };
                        assert(k != p);
                        assert(old_tasks[i] == tasks@[k]);
                    }
                }
            }
        }
        self.tasks = tasks;
    }

    /// The pipeline name.
    pub fn name(&self) -> (res: &str)
        ensures
            res@ == self.spec_name(),
    {
        self.name.as_str()
    }

    /// All tasks, in name order.
    pub fn tasks(&self) -> (res: &Vec<Task>)
        ensures
            res@ == self.spec_tasks(),
            tasks_in_order(res@),
    {
        proof {
            use_type_invariant(self);
        }
        &self.tasks
    }

    /// The failure policy.
    pub fn get_failure_policy(&self) -> (res: FailurePolicy)
        ensures
            res == self.spec_failure_policy(),
    {
        self.failure_policy
    }

    /// The rollback policy.
    pub fn get_rollback_policy(&self) -> (res: RollbackPolicy)
        ensures
            res == self.spec_rollback_policy(),
    {
        self.rollback_policy
    }

    /// The default shell of shell tasks.
    pub fn default_shell(&self) -> (res: &Shell)
        ensures
            *res == self.spec_shell(),
    {
        &self.shell
    }

    /// The index of the task of the given name, if any.
    pub fn task_index(&self, name: &str) -> (res: Option<usize>)
        ensures
            match res {
                Some(i) => i < self.spec_tasks().len() && self.spec_tasks()[i as int].name@ == name@,
                None => !has_task(self.spec_tasks(), name@),
            },
    {
        let tasks = self.tasks();
        let mut i: usize = 0;
        while i < tasks.len()
            invariant
                i <= tasks@.len(),
                tasks@ == self.spec_tasks(),
                forall|j: int| 0 <= j < i ==> #[trigger] tasks@[j].name@ != name@,
            decreases tasks@.len() - i,
        {
            if str_eq(tasks[i].name.as_str(), name) {
                return Some(i);
            }
            i = i + 1;
        }
        None
    }

    /// The task of the given name, if any.
    pub fn task(&self, name: &str) -> (res: Option<&Task>)
        ensures
            match res {
                Some(t) => find_task(self.spec_tasks(), name@) == Some(*t),
                None => find_task(self.spec_tasks(), name@) is None,
            },
    {
        let tasks = self.tasks();
        match self.task_index(name) {
            Some(i) => {
                proof {
                    lemma_find_task_index(tasks@, i as int);
                }
                Some(&tasks[i])
            },
            None => None,
        }
    }
}

impl Pipeline {
    /// Takes a pipeline apart.
    pub(crate) fn into_parts(self) -> (res: (String, Vec<Task>, FailurePolicy, RollbackPolicy, Shell))
        ensures
            res.0@ == self.spec_name(),
            res.1@ == self.spec_tasks(),
            tasks_in_order(res.1@),
            res.2 == self.spec_failure_policy(),
            res.3 == self.spec_rollback_policy(),
            res.4 == self.spec_shell(),
    {
        proof {
            use_type_invariant(&self);
        }
        (self.name, self.tasks, self.failure_policy, self.rollback_policy, self.shell)
    }

    /// Puts a pipeline together from tasks held in name order.
    pub(crate) fn from_parts(
        name: String,
        tasks: Vec<Task>,
        failure_policy: FailurePolicy,
        rollback_policy: RollbackPolicy,
        shell: Shell,
    ) -> (res: Pipeline)
        requires
            tasks_in_order(tasks@),
        ensures
            res.spec_name() == name@,
            res.spec_tasks() == tasks@,
            res.spec_failure_policy() == failure_policy,
            res.spec_rollback_policy() == rollback_policy,
            res.spec_shell() == shell,
    {
        Pipeline { name, tasks, failure_policy, rollback_policy, shell }
    }
}

} // verus!

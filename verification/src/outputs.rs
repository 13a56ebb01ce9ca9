//! The outputs tasks publish during a run, and which tasks have completed.
//!
//! A task writes named values; another task reads them only once the writer has completed.
//! The store is a log of writes; its meaning is the map the writes build in order.
use vstd::prelude::*;
use crate::text::{push_text, str_eq, str_to_string, strs};

verus! {

/// One write to the store.
#[derive(Clone, Debug)]
pub enum OutputRecord<V> {
    /// The task's output `key` becomes the value.
    Write(String, String, V),
    /// The task's outputs become exactly these (later entries win over earlier ones).
    Restore(String, Vec<(String, V)>),
}

/// The map that the entries build, inserted in order.
pub open spec fn entries_map<V>(entries: Seq<(String, V)>) -> Map<Seq<char>, V>
    decreases entries.len(),
{
    if entries.len() == 0 {
        Map::empty()
    } else {
        entries_map(entries.drop_last()).insert(entries.last().0@, entries.last().1)
    }
}

/// A task's outputs in a map of all outputs: empty if it has none.
pub open spec fn outputs_or_empty<V>(m: Map<Seq<char>, Map<Seq<char>, V>>, task: Seq<char>) -> Map<Seq<char>, V> {
    if m.contains_key(task) {
        m[task]
    } else {
        Map::empty()
    }
}

/// The outputs of every task after one more write.
pub open spec fn apply_record<V>(m: Map<Seq<char>, Map<Seq<char>, V>>, r: OutputRecord<V>) -> Map<Seq<char>, Map<Seq<char>, V>> {
    match r {
        OutputRecord::Write(t, k, v) => m.insert(t@, outputs_or_empty(m, t@).insert(k@, v)),
        OutputRecord::Restore(t, entries) => m.insert(t@, entries_map(entries@)),
    }
}

/// The outputs of every task after the writes, in order.
pub open spec fn log_outputs<V>(log: Seq<OutputRecord<V>>) -> Map<Seq<char>, Map<Seq<char>, V>>
    decreases log.len(),
{
    if log.len() == 0 {
        Map::empty()
    } else {
        apply_record(log_outputs(log.drop_last()), log.last())
    }
}

/// What reading a task's output gives: the value, or why it cannot be read.
pub open spec fn output_outcome<V>(
    outputs: Map<Seq<char>, Map<Seq<char>, V>>,
    completed: Set<Seq<char>>,
    task: Seq<char>,
    key: Seq<char>,
) -> Result<V, Seq<char>> {
    if !completed.contains(task) {
        Err("Output from task '"@ + task + "' is not available because the task has not completed"@)
    } else if !outputs.contains_key(task) {
        Err("Task '"@ + task + "' has no outputs"@)
    } else if !outputs[task].contains_key(key) {
        Err("Task '"@ + task + "' has no output named '"@ + key + "'"@)
    } else {
        Ok(outputs[task][key])
    }
}

/// The outputs of a run and the tasks that have completed.
pub struct OutputStore<V> {
    log: Vec<OutputRecord<V>>,
    completed: Vec<String>,
}

impl<V> OutputStore<V> {
    /// Every task's outputs.
    pub closed spec fn outputs(&self) -> Map<Seq<char>, Map<Seq<char>, V>> {
        log_outputs(self.log@)
    }

    /// The tasks that have completed.
    pub closed spec fn completed(&self) -> Set<Seq<char>> {
        strs(self.completed@).to_set()
    }

    /// An empty store.
    pub fn new() -> (res: OutputStore<V>)
        ensures
            res.outputs() == Map::<Seq<char>, Map<Seq<char>, V>>::empty(),
            res.completed() == Set::<Seq<char>>::empty(),
    {
        let res = OutputStore { log: Vec::new(), completed: Vec::new() };
        assert(strs(res.completed@).to_set() =~= Set::<Seq<char>>::empty());
        res
    }

    /// The task's output `key` becomes `value`; its other outputs stay.
    pub fn set_output(&mut self, task: &str, key: &str, value: V)
        ensures
            final(self).outputs() == old(self).outputs().insert(
                task@,
                outputs_or_empty(old(self).outputs(), task@).insert(key@, value),
            ),
            final(self).completed() == old(self).completed(),
    {
        let ghost before = self.log@;
        self.log.push(OutputRecord::Write(str_to_string(task), str_to_string(key), value));
        assert(self.log@.drop_last() =~= before);
    }

    /// The task's outputs become exactly `entries` (restored from the cache, say).
    pub fn replace_outputs(&mut self, task: &str, entries: Vec<(String, V)>)
        ensures
            final(self).outputs() == old(self).outputs().insert(task@, entries_map(entries@)),
            final(self).completed() == old(self).completed(),
    {
        let ghost before = self.log@;
        let ghost e = entries@;
        self.log.push(OutputRecord::Restore(str_to_string(task), entries));
        assert(self.log@.drop_last() =~= before);
    }

    /// The task has completed: its outputs become readable.
    pub fn mark_completed(&mut self, task: &str)
        ensures
            final(self).outputs() == old(self).outputs(),
            final(self).completed() == old(self).completed().insert(task@),
    {
        let ghost before = strs(self.completed@);
        self.completed.push(str_to_string(task));
        proof {
            assert(strs(self.completed@) =~= before.push(task@));
            before.lemma_push_to_set_commute(task@);
        }
    }

    /// Whether the task has completed.
    pub fn is_completed(&self, task: &str) -> (res: bool)
        ensures
            res == self.completed().contains(task@),
    {
        let mut i: usize = 0;
        while i < self.completed.len()
            invariant
                i <= self.completed@.len(),
                forall|k: int| 0 <= k < i ==> strs(self.completed@)[k] != task@,
            decreases self.completed@.len() - i,
        {
            if str_eq(self.completed[i].as_str(), task) {
                assert(strs(self.completed@)[i as int] == task@);
                return true;
            }
            i = i + 1;
        }
        false
    }

    /// The task's outputs as entries whose map, inserted in order, is the task's outputs.
    pub fn outputs_of(&self, task: &str) -> (res: Vec<(String, &V)>)
        ensures
            entries_ref_map(res@) == outputs_or_empty(self.outputs(), task@),
    {
        let mut acc: Vec<(String, &V)> = Vec::new();
        let mut i: usize = 0;
        assert(self.log@.take(0) =~= Seq::<OutputRecord<V>>::empty());
        assert(entries_ref_map(acc@) =~= outputs_or_empty(log_outputs(self.log@.take(0)), task@));
        while i < self.log.len()
            invariant
                i <= self.log@.len(),
                entries_ref_map(acc@) == outputs_or_empty(log_outputs(self.log@.take(i as int)), task@),
            decreases self.log@.len() - i,
        {
            let ghost prev = log_outputs(self.log@.take(i as int));
            proof {
                assert(self.log@.take(i + 1).drop_last() =~= self.log@.take(i as int));
            }
            match &self.log[i] {
                OutputRecord::Write(t, k, v) => {
                    if str_eq(t.as_str(), task) {
                        let ghost before = acc@;
                        acc.push((str_to_string(k.as_str()), v));
                        assert(acc@.drop_last() =~= before);
                        assert(entries_ref_map(acc@) =~= outputs_or_empty(prev, task@).insert(k@, *v));
                    }
                    assert(entries_ref_map(acc@) =~= outputs_or_empty(log_outputs(self.log@.take(i + 1)), task@));
                },
                OutputRecord::Restore(t, entries) => {
                    if str_eq(t.as_str(), task) {
                        let mut fresh: Vec<(String, &V)> = Vec::new();
                        let mut j: usize = 0;
                        assert(entries@.take(0) =~= Seq::<(String, V)>::empty());
                        while j < entries.len()
                            invariant
                                j <= entries@.len(),
                                entries_ref_map(fresh@) == entries_map(entries@.take(j as int)),
                            decreases entries@.len() - j,
                        {
                            let ghost before = fresh@;
                            fresh.push((str_to_string(entries[j].0.as_str()), &entries[j].1));
                            assert(fresh@.drop_last() =~= before);
                            assert(entries@.take(j + 1).drop_last() =~= entries@.take(j as int));
                            j = j + 1;
                        }
                        assert(entries@.take(entries@.len() as int) =~= entries@);
                        acc = fresh;
                    }
                    assert(entries_ref_map(acc@) =~= outputs_or_empty(log_outputs(self.log@.take(i + 1)), task@));
                },
            }
            i = i + 1;
        }
        assert(self.log@.take(self.log@.len() as int) =~= self.log@);
        acc
    }

    /// The task's output named `key`, once the task has completed.
    pub fn output_from(&self, task: &str, key: &str) -> (res: Result<&V, String>)
        ensures
            match output_outcome(self.outputs(), self.completed(), task@, key@) {
                Ok(v) => res matches Ok(r) && *r == v,
                Err(e) => res matches Err(m) && m@ == e,
            },
    {
        if !self.is_completed(task) {
            let mut m = str_to_string("Output from task '");
            push_text(&mut m, task);
            push_text(&mut m, "' is not available because the task has not completed");
            return Err(m);
        }
        let entries = self.outputs_of(task);
        let mut found: Option<&V> = None;
        let mut j: usize = 0;
        assert(entries@.take(0) =~= Seq::<(String, &V)>::empty());
        while j < entries.len()
            invariant
                j <= entries@.len(),
                match found {
                    Some(v) => entries_ref_map(entries@.take(j as int)).contains_key(key@)
                        && entries_ref_map(entries@.take(j as int))[key@] == *v,
                    None => !entries_ref_map(entries@.take(j as int)).contains_key(key@),
                },
            decreases entries@.len() - j,
        {
            assert(entries@.take(j + 1).drop_last() =~= entries@.take(j as int));
            if str_eq(entries[j].0.as_str(), key) {
                found = Some(entries[j].1);
            }
            j = j + 1;
        }
        assert(entries@.take(entries@.len() as int) =~= entries@);
        match found {
            Some(v) => {
                proof {
                    if !self.outputs().contains_key(task@) {
                        assert(outputs_or_empty(self.outputs(), task@) =~= Map::<Seq<char>, V>::empty());
                    }
                }
                Ok(v)
            },
            None => {
                if !self.has_outputs(task) {
                    let mut m = str_to_string("Task '");
                    push_text(&mut m, task);
                    push_text(&mut m, "' has no outputs");
                    Err(m)
                } else {
                    let mut m = str_to_string("Task '");
                    push_text(&mut m, task);
                    push_text(&mut m, "' has no output named '");
                    push_text(&mut m, key);
                    push_text(&mut m, "'");
                    Err(m)
                }
            },
        }
    }

    /// Whether any output of the task was ever written (possibly as an empty set of outputs).
    pub fn has_outputs(&self, task: &str) -> (res: bool)
        ensures
            res == self.outputs().contains_key(task@),
    {
        let mut i: usize = 0;
        let mut seen = false;
        assert(self.log@.take(0) =~= Seq::<OutputRecord<V>>::empty());
        while i < self.log.len()
            invariant
                i <= self.log@.len(),
                seen == log_outputs(self.log@.take(i as int)).contains_key(task@),
            decreases self.log@.len() - i,
        {
            proof {
                assert(self.log@.take(i + 1).drop_last() =~= self.log@.take(i as int));
            }
            let t = match &self.log[i] {
                OutputRecord::Write(t, _, _) => t.as_str(),
                OutputRecord::Restore(t, _) => t.as_str(),
            };
            if str_eq(t, task) {
                seen = true;
            }
            i = i + 1;
        }
        assert(self.log@.take(self.log@.len() as int) =~= self.log@);
        seen
    }
}

/// The map that entries of references build, inserted in order.
pub open spec fn entries_ref_map<V>(entries: Seq<(String, &V)>) -> Map<Seq<char>, V>
    decreases entries.len(),
{
    if entries.len() == 0 {
        Map::empty()
    } else {
        entries_ref_map(entries.drop_last()).insert(entries.last().0@, *entries.last().1)
    }
}

/// What a task writes, it reads back once it has completed: a value written under a key is
/// what reading that key gives after the task is marked completed.
pub proof fn lemma_read_after_write<V>(
    outputs: Map<Seq<char>, Map<Seq<char>, V>>,
    completed: Set<Seq<char>>,
    task: Seq<char>,
    key: Seq<char>,
    value: V,
)
    ensures
        output_outcome(
            outputs.insert(task, outputs_or_empty(outputs, task).insert(key, value)),
            completed.insert(task),
            task,
            key,
        ) == Ok::<V, Seq<char>>(value),
{
}

/// Writing one task's output leaves what every other task's outputs read as unchanged.
pub proof fn lemma_write_isolated<V>(
    outputs: Map<Seq<char>, Map<Seq<char>, V>>,
    completed: Set<Seq<char>>,
    task: Seq<char>,
    key: Seq<char>,
    value: V,
    other: Seq<char>,
    other_key: Seq<char>,
)
    requires
        other != task,
    ensures
        output_outcome(
            outputs.insert(task, outputs_or_empty(outputs, task).insert(key, value)),
            completed,
            other,
            other_key,
        ) == output_outcome(outputs, completed, other, other_key),
{
}

/// Until a task has completed, none of its outputs can be read.
pub proof fn lemma_unfinished_unreadable<V>(
    outputs: Map<Seq<char>, Map<Seq<char>, V>>,
    completed: Set<Seq<char>>,
    task: Seq<char>,
    key: Seq<char>,
)
    requires
        !completed.contains(task),
    ensures
        output_outcome(outputs, completed, task, key) is Err,
{
}

} // verus!

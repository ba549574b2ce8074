//! The task registry: the canonical set of download tasks, keyed by video id.
//!
//! The registry owns the tasks the consumer displays. Progress may only grow:
//! a late or out-of-order value below the current progress is discarded, and
//! a value at or past a full download completes the task and clamps its
//! progress at `PROGRESS_ONE`.

use vstd::prelude::*;
use crate::model::{DownloadStatus, DownloadTask, PROGRESS_ONE, task_wf};
use crate::text::str_eq;

verus! {

/// Index of the first task with the given id; -1 when there is none.
pub open spec fn find_task(s: Seq<DownloadTask>, id: Seq<char>) -> int
    decreases s.len(),
{
    if s.len() == 0 {
        -1
    } else if s[0].video_id@ == id {
        0
    } else {
        let r = find_task(s.drop_first(), id);
        if r < 0 {
            -1
        } else {
            1 + r
        }
    }
}

/// Whether some task carries the given id.
pub open spec fn contains_id(s: Seq<DownloadTask>, id: Seq<char>) -> bool {
    find_task(s, id) >= 0
}

/// No two tasks share an id.
pub open spec fn unique_ids(s: Seq<DownloadTask>) -> bool {
    forall|i: int, j: int| 0 <= i < j < s.len() ==> s[i].video_id@ != s[j].video_id@
}

/// Every task is well formed and ids are unique.
pub open spec fn tasks_wf(s: Seq<DownloadTask>) -> bool {
    &&& unique_ids(s)
    &&& forall|i: int| 0 <= i < s.len() ==> task_wf(#[trigger] s[i])
}

/// One progress signal applied to one task: progress only ever grows, and a
/// value at or past a full download completes the task and clamps progress.
pub open spec fn task_step(t: DownloadTask, v: u64) -> DownloadTask {
    if v > t.progress {
        DownloadTask {
            title: t.title,
            video_id: t.video_id,
            status: if v >= PROGRESS_ONE {
                DownloadStatus::Done
            } else {
                t.status
            },
            progress: if v >= PROGRESS_ONE {
                PROGRESS_ONE
            } else {
                v
            },
        }
    } else {
        t
    }
}

/// One progress signal applied to the registry: only the task with the given
/// id changes, and only by `task_step`; an unknown id changes nothing.
pub open spec fn reg_step(s: Seq<DownloadTask>, id: Seq<char>, v: u64) -> Seq<DownloadTask> {
    let i = find_task(s, id);
    if i < 0 {
        s
    } else {
        s.update(i, task_step(s[i], v))
    }
}

pub proof fn lemma_find_task_props(s: Seq<DownloadTask>, id: Seq<char>)
    ensures
        find_task(s, id) == -1 || 0 <= find_task(s, id) < s.len(),
        find_task(s, id) >= 0 ==> s[find_task(s, id)].video_id@ == id,
        find_task(s, id) == -1 ==> forall|j: int|
            0 <= j < s.len() ==> (#[trigger] s[j]).video_id@ != id,
        forall|j: int| 0 <= j < find_task(s, id) ==> (#[trigger] s[j]).video_id@ != id,
    decreases s.len(),
{
    if s.len() > 0 && s[0].video_id@ != id {
        lemma_find_task_props(s.drop_first(), id);
        assert(forall|j: int|
            0 < j < s.len() ==> (#[trigger] s[j]) == s.drop_first()[j - 1]);
    }
}

pub proof fn lemma_find_task_at(s: Seq<DownloadTask>, id: Seq<char>, i: int)
    requires
        0 <= i < s.len(),
        s[i].video_id@ == id,
        forall|j: int| 0 <= j < i ==> (#[trigger] s[j]).video_id@ != id,
    ensures
        find_task(s, id) == i,
    decreases i,
{
    if i > 0 {
        lemma_find_task_at(s.drop_first(), id, i - 1);
    } else {
    }
}

/// `find_task` looks only at ids: two sequences with the same ids in the same
/// places agree on it.
pub proof fn lemma_find_same_ids(a: Seq<DownloadTask>, b: Seq<DownloadTask>, id: Seq<char>)
    requires
        a.len() == b.len(),
        forall|k: int| 0 <= k < a.len() ==> (#[trigger] a[k]).video_id@ == b[k].video_id@,
    ensures
        find_task(a, id) == find_task(b, id),
    decreases a.len(),
{
    if a.len() > 0 && a[0].video_id@ != id {
        lemma_find_same_ids(a.drop_first(), b.drop_first(), id);
    }
}

pub proof fn lemma_find_task_absent(s: Seq<DownloadTask>, id: Seq<char>)
    requires
        forall|j: int| 0 <= j < s.len() ==> (#[trigger] s[j]).video_id@ != id,
    ensures
        find_task(s, id) == -1,
    decreases s.len(),
{
    if s.len() > 0 {
        lemma_find_task_absent(s.drop_first(), id);
    }
}

/// The registry of download tasks.
pub struct TaskRegistry {
    tasks: Vec<DownloadTask>,
}

impl View for TaskRegistry {
    type V = Seq<DownloadTask>;

    closed spec fn view(&self) -> Seq<DownloadTask> {
        self.tasks@
    }
}

impl TaskRegistry {
    /// The registry's invariant: unique ids, every task well formed.
    pub open spec fn wf(&self) -> bool {
        tasks_wf(self@)
    }

    /// An empty registry.
    pub fn new() -> (r: TaskRegistry)
        ensures
            r@ =~= Seq::<DownloadTask>::empty(),
            r.wf(),
    {
        TaskRegistry { tasks: Vec::new() }
    }

    /// Index of the task with the given id, if any.
    #[verifier::loop_isolation(false)]
    fn position(&self, id: &str) -> (r: Option<usize>)
        ensures
            match r {
                Some(i) => 0 <= i < self@.len() && find_task(self@, id@) == i,
                None => find_task(self@, id@) == -1,
            },
    {
        let n = self.tasks.len();
        let mut i: usize = 0;
        while i < n
            invariant
                0 <= i <= n == self@.len(),
                forall|j: int| 0 <= j < i ==> (#[trigger] self@[j]).video_id@ != id@,
            decreases n - i,
        {
            if str_eq(self.tasks[i].video_id.as_str(), id) {
                proof {
                    lemma_find_task_at(self@, id@, i as int);
                }
                return Some(i);
            }
            i += 1;
        }
        proof {
            lemma_find_task_absent(self@, id@);
        }
        None
    }

    /// Whether a task with the given id is registered.
    pub fn contains(&self, id: &str) -> (r: bool)
        ensures
            r == contains_id(self@, id@),
    {
        self.position(id).is_some()
    }

    /// Number of registered tasks.
    pub fn len(&self) -> (r: usize)
        ensures
            r == self@.len(),
    {
        self.tasks.len()
    }

    /// Registers a new task, starting as `Downloading` with no progress yet.
    /// Refuses an id already present: ids must stay unique for the registry's
    /// lifetime.
    pub fn insert(&mut self, video_id: String, title: String) -> (r: bool)
        requires
            old(self).wf(),
        ensures
            final(self).wf(),
            r == !contains_id(old(self)@, video_id@),
            r ==> final(self)@ =~= old(self)@.push(
                DownloadTask {
                    title: title,
                    video_id: video_id,
                    status: DownloadStatus::Downloading,
                    progress: 0,
                },
            ),
            !r ==> final(self)@ == old(self)@,
    {
        if self.contains(video_id.as_str()) {
            return false;
        }
        proof {
            lemma_find_task_props(self@, video_id@);
        }
        let t = DownloadTask {
            title: title,
            video_id: video_id,
            status: DownloadStatus::Downloading,
            progress: 0,
        };
        self.tasks.push(t);
        proof {
            let s = self.tasks@;
            assert(forall|i: int| 0 <= i < s.len() - 1 ==> s[i] == old(self)@[i]);
            assert(tasks_wf(s));
        }
        true
    }

    /// Applies one progress signal to the task with the given id, exactly as
    /// `reg_step` states: progress never decreases, a value at or past
    /// `PROGRESS_ONE` completes the task and clamps its progress, every other
    /// task is left untouched, and an unknown id changes nothing.
    pub fn apply_progress(&mut self, id: &str, value: u64)
        requires
            old(self).wf(),
        ensures
            final(self).wf(),
            final(self)@ == reg_step(old(self)@, id@, value),
            final(self)@.len() == old(self)@.len(),
            forall|j: int|
                0 <= j < old(self)@.len() && (#[trigger] old(self)@[j]).video_id@ != id@
                    ==> final(self)@[j] == old(self)@[j],
            forall|j: int|
                0 <= j < old(self)@.len() ==> {
                    &&& (#[trigger] final(self)@[j]).progress >= old(self)@[j].progress
                    &&& final(self)@[j].video_id == old(self)@[j].video_id
                    &&& final(self)@[j].title == old(self)@[j].title
                },
            contains_id(old(self)@, id@) && value >= PROGRESS_ONE ==> {
                &&& final(self)@[find_task(old(self)@, id@)].progress == PROGRESS_ONE
                &&& final(self)@[find_task(old(self)@, id@)].status is Done
            },
    {
        proof {
            lemma_find_task_props(self@, id@);
        }
        match self.position(id) {
            None => {
                proof {
                    assert(reg_step(old(self)@, id@, value) == old(self)@);
                }
            },
            Some(i) => {
                let ghost s0 = self@;
                let cur = self.tasks[i].progress;
                if value > cur {
                    if value >= PROGRESS_ONE {
                        self.tasks[i].progress = PROGRESS_ONE;
                        self.tasks[i].status = DownloadStatus::Done;
                    } else {
                        self.tasks[i].progress = value;
                    }
                    proof {
                        assert(self.tasks@ =~= s0.update(i as int, task_step(s0[i as int], value)));
                        assert(tasks_wf(self.tasks@)) by {
                            assert(forall|j: int|
                                0 <= j < self.tasks@.len() && j != i ==> self.tasks@[j] == s0[j]);
                            assert(task_wf(self.tasks@[i as int]));
                        }
                    }
                } else {
                    proof {
                        assert(task_step(s0[i as int], value) == s0[i as int]);
                        assert(s0.update(i as int, s0[i as int]) =~= s0);
                    }
                }
            },
        }
    }

    /// Removes the task with the given id, if present. Afterwards no task
    /// carries that id.
    pub fn remove(&mut self, id: &str)
        requires
            old(self).wf(),
        ensures
            final(self).wf(),
            contains_id(old(self)@, id@) ==> final(self)@ =~= old(self)@.remove(
                find_task(old(self)@, id@),
            ),
            !contains_id(old(self)@, id@) ==> final(self)@ == old(self)@,
            !contains_id(final(self)@, id@),
    {
        proof {
            lemma_find_task_props(self@, id@);
        }
        match self.position(id) {
            None => {},
            Some(i) => {
                let ghost s0 = self@;
                self.tasks.remove(i);
                proof {
                    let s = self.tasks@;
                    assert(forall|j: int|
                        0 <= j < s.len() ==> #[trigger] s[j] == if j < i as int {
                            s0[j]
                        } else {
                            s0[j + 1]
                        });
                    assert(forall|j: int| 0 <= j < s.len() ==> (#[trigger] s[j]).video_id@ != id@);
                    lemma_find_task_absent(s, id@);
                }
            },
        }
        proof {
            lemma_find_task_absent(self@, id@);
        }
    }

    /// A read-only snapshot of the current tasks, for display.
    pub fn list(&self) -> (r: &Vec<DownloadTask>)
        ensures
            r@ == self@,
    {
        &self.tasks
    }
}

} // verus!

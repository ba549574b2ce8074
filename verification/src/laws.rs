//! Laws of progress tracking, stated over whole sequences of signals.

use vstd::prelude::*;
use crate::model::{DownloadTask, PROGRESS_ONE, task_wf};
use crate::registry::{
    find_task, reg_step, task_step, tasks_wf, lemma_find_task_props, lemma_find_same_ids,
};

verus! {

/// A whole sequence of progress signals applied to one task, first to last.
pub open spec fn task_run(t: DownloadTask, vs: Seq<u64>) -> DownloadTask
    decreases vs.len(),
{
    if vs.len() == 0 {
        t
    } else {
        task_run(task_step(t, vs[0]), vs.drop_first())
    }
}

/// A whole sequence of addressed progress signals applied to the registry,
/// first to last.
pub open spec fn reg_run(s: Seq<DownloadTask>, us: Seq<(Seq<char>, u64)>) -> Seq<DownloadTask>
    decreases us.len(),
{
    if us.len() == 0 {
        s
    } else {
        reg_run(reg_step(s, us[0].0, us[0].1), us.drop_first())
    }
}

/// The signals among `us` addressed to `id`, in arrival order.
pub open spec fn values_for(us: Seq<(Seq<char>, u64)>, id: Seq<char>) -> Seq<u64>
    decreases us.len(),
{
    if us.len() == 0 {
        Seq::<u64>::empty()
    } else if us[0].0 == id {
        seq![us[0].1] + values_for(us.drop_first(), id)
    } else {
        values_for(us.drop_first(), id)
    }
}

/// No signal ever lowers a well-formed task's progress, and every signal
/// leaves the task well formed, with its id and title untouched.
pub proof fn lemma_task_run_grows(t: DownloadTask, vs: Seq<u64>)
    requires
        task_wf(t),
    ensures
        task_run(t, vs).progress >= t.progress,
        task_run(t, vs).video_id == t.video_id,
        task_run(t, vs).title == t.title,
        task_wf(task_run(t, vs)),
    decreases vs.len(),
{
    if vs.len() > 0 {
        lemma_task_run_grows(task_step(t, vs[0]), vs.drop_first());
    }
}

/// Running a sequence of signals is running a prefix, then the rest.
pub proof fn lemma_task_run_split(t: DownloadTask, vs: Seq<u64>, i: int)
    requires
        0 <= i <= vs.len(),
    ensures
        task_run(t, vs) == task_run(task_run(t, vs.take(i)), vs.skip(i)),
    decreases i,
{
    if i == 0 {
        assert(vs.take(0) =~= Seq::<u64>::empty());
        assert(vs.skip(0) =~= vs);
    } else {
        let t1 = task_step(t, vs[0]);
        let rest = vs.drop_first();
        assert(vs.take(i)[0] == vs[0]);
        assert(vs.take(i).drop_first() =~= rest.take(i - 1));
        assert(vs.skip(i) =~= rest.skip(i - 1));
        lemma_task_run_split(t1, rest, i - 1);
    }
}

/// Monotonicity: however a sequence of progress signals is ordered, the
/// observed progress of a task is non-decreasing from each step to any later
/// one.
pub proof fn lemma_progress_monotone(t: DownloadTask, vs: Seq<u64>, i: int, j: int)
    requires
        task_wf(t),
        0 <= i <= j <= vs.len(),
    ensures
        task_run(t, vs.take(i)).progress <= task_run(t, vs.take(j)).progress,
{
    let tj = vs.take(j);
    lemma_task_run_split(t, tj, i);
    assert(tj.take(i) =~= vs.take(i));
    lemma_task_run_grows(t, vs.take(i));
    lemma_task_run_grows(task_run(t, vs.take(i)), tj.skip(i));
}

/// Completion: a signal at or past a full download completes the task and
/// clamps its progress at exactly `PROGRESS_ONE`.
pub proof fn lemma_completion(t: DownloadTask, v: u64)
    requires
        task_wf(t),
        v >= PROGRESS_ONE,
    ensures
        task_step(t, v).progress == PROGRESS_ONE,
        task_step(t, v).status is Done,
{
}

/// One addressed signal keeps the registry well formed and every task's
/// progress, id and title where they were or better.
pub proof fn lemma_reg_step_grows(s: Seq<DownloadTask>, id: Seq<char>, v: u64)
    requires
        tasks_wf(s),
    ensures
        tasks_wf(reg_step(s, id, v)),
        reg_step(s, id, v).len() == s.len(),
        forall|k: int|
            0 <= k < s.len() ==> {
                &&& (#[trigger] reg_step(s, id, v)[k]).video_id == s[k].video_id
                &&& reg_step(s, id, v)[k].title == s[k].title
                &&& reg_step(s, id, v)[k].progress >= s[k].progress
            },
{
    let i = find_task(s, id);
    if i >= 0 {
        lemma_find_task_props(s, id);
        assert(task_wf(s[i]));
        assert(task_wf(task_step(s[i], v)));
    }
}

/// A whole run of addressed signals keeps the registry well formed and every
/// task's progress, id and title where they were or better.
pub proof fn lemma_reg_run_grows(s: Seq<DownloadTask>, us: Seq<(Seq<char>, u64)>)
    requires
        tasks_wf(s),
    ensures
        tasks_wf(reg_run(s, us)),
        reg_run(s, us).len() == s.len(),
        forall|k: int|
            0 <= k < s.len() ==> {
                &&& (#[trigger] reg_run(s, us)[k]).video_id == s[k].video_id
                &&& reg_run(s, us)[k].title == s[k].title
                &&& reg_run(s, us)[k].progress >= s[k].progress
            },
    decreases us.len(),
{
    if us.len() > 0 {
        lemma_reg_step_grows(s, us[0].0, us[0].1);
        lemma_reg_run_grows(reg_step(s, us[0].0, us[0].1), us.drop_first());
    }
}

/// Running a sequence of addressed signals is running a prefix, then the
/// rest.
pub proof fn lemma_reg_run_split(s: Seq<DownloadTask>, us: Seq<(Seq<char>, u64)>, i: int)
    requires
        0 <= i <= us.len(),
    ensures
        reg_run(s, us) == reg_run(reg_run(s, us.take(i)), us.skip(i)),
    decreases i,
{
    if i == 0 {
        assert(us.take(0) =~= Seq::<(Seq<char>, u64)>::empty());
        assert(us.skip(0) =~= us);
    } else {
        let s1 = reg_step(s, us[0].0, us[0].1);
        let rest = us.drop_first();
        assert(us.take(i)[0] == us[0]);
        assert(us.take(i).drop_first() =~= rest.take(i - 1));
        assert(us.skip(i) =~= rest.skip(i - 1));
        lemma_reg_run_split(s1, rest, i - 1);
    }
}

/// Registry-level monotonicity: across any interleaved sequence of addressed
/// signals, every task's observed progress is non-decreasing from each step
/// to any later one.
pub proof fn lemma_registry_progress_monotone(
    s: Seq<DownloadTask>,
    us: Seq<(Seq<char>, u64)>,
    i: int,
    j: int,
    k: int,
)
    requires
        tasks_wf(s),
        0 <= i <= j <= us.len(),
        0 <= k < s.len(),
    ensures
        reg_run(s, us.take(i))[k].progress <= reg_run(s, us.take(j))[k].progress,
{
    let a = us.take(j);
    lemma_reg_run_split(s, a, i);
    assert(a.take(i) =~= us.take(i));
    lemma_reg_run_grows(s, us.take(i));
    lemma_reg_run_grows(reg_run(s, us.take(i)), a.skip(i));
}

/// Isolation: tasks with distinct ids never influence one another. Under any
/// interleaved sequence of addressed signals, each task ends exactly where
/// the signals addressed to its own id alone leave it — in particular, a task
/// none of the signals addresses is untouched — and no signal adds, removes
/// or retitles a task.
pub proof fn lemma_isolation(s: Seq<DownloadTask>, us: Seq<(Seq<char>, u64)>, id: Seq<char>)
    ensures
        reg_run(s, us).len() == s.len(),
        forall|k: int| 0 <= k < s.len() ==> {
            &&& (#[trigger] reg_run(s, us)[k]).video_id == s[k].video_id
            &&& reg_run(s, us)[k].title == s[k].title
        },
        find_task(reg_run(s, us), id) == find_task(s, id),
        find_task(s, id) >= 0 ==> reg_run(s, us)[find_task(s, id)] == task_run(
            s[find_task(s, id)],
            values_for(us, id),
        ),
    decreases us.len(),
{
    lemma_find_task_props(s, id);
    if us.len() > 0 {
        let u0 = us[0];
        let rest = us.drop_first();
        let s1 = reg_step(s, u0.0, u0.1);
        lemma_find_task_props(s, u0.0);
        assert(s1.len() == s.len());
        assert(forall|k: int| 0 <= k < s.len() ==> {
            &&& (#[trigger] s1[k]).video_id == s[k].video_id
            &&& s1[k].title == s[k].title
        });
        lemma_isolation(s1, rest, id);
        lemma_find_same_ids(s, s1, id);
        let i = find_task(s, id);
        if i >= 0 {
            if u0.0 == id {
                assert(s1[i] == task_step(s[i], u0.1));
                let vs = values_for(us, id);
                assert(vs == seq![u0.1] + values_for(rest, id));
                assert(vs[0] == u0.1);
                assert(vs.drop_first() =~= values_for(rest, id));
                assert(task_run(s[i], vs) == task_run(task_step(s[i], u0.1), values_for(rest, id)));
            } else {
                let i0 = find_task(s, u0.0);
                if i0 >= 0 {
                    assert(s[i0].video_id@ == u0.0);
                    assert(s[i].video_id@ == id);
                    assert(i0 != i);
                    assert(s1[i] == s[i]);
                } else {
                    assert(s1 == s);
                }
                assert(values_for(us, id) == values_for(rest, id));
            }
        }
    }
}

} // verus!

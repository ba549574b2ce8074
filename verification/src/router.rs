//! The progress router: owns the consumer end of one progress channel per
//! active task, polls every channel without blocking once per consumer cycle,
//! and applies whatever values are waiting to the task registry.

use vstd::prelude::*;
use tokio::sync::mpsc::UnboundedReceiver;
use crate::channel::{RecvOutcome, try_recv_progress};
use crate::registry::{TaskRegistry, contains_id, lemma_find_same_ids};
use crate::text::str_eq;

verus! {

/// How many values one channel may hand over in one polling cycle. A cycle
/// must stay finite even against a producer that outpaces the consumer;
/// values past the budget are simply picked up next cycle.
pub const DRAIN_LIMIT: usize = 4096;

/// Index of the first id equal to `id`; -1 when there is none.
pub open spec fn find_id(ids: Seq<Seq<char>>, id: Seq<char>) -> int
    decreases ids.len(),
{
    if ids.len() == 0 {
        -1
    } else if ids[0] == id {
        0
    } else {
        let r = find_id(ids.drop_first(), id);
        if r < 0 {
            -1
        } else {
            1 + r
        }
    }
}

/// No id registered twice.
pub open spec fn unique_seq_ids(ids: Seq<Seq<char>>) -> bool {
    forall|i: int, j: int| 0 <= i < j < ids.len() ==> ids[i] != ids[j]
}

pub proof fn lemma_find_id_props(ids: Seq<Seq<char>>, id: Seq<char>)
    ensures
        find_id(ids, id) == -1 || 0 <= find_id(ids, id) < ids.len(),
        find_id(ids, id) >= 0 ==> ids[find_id(ids, id)] == id,
        find_id(ids, id) == -1 ==> forall|j: int| 0 <= j < ids.len() ==> ids[j] != id,
    decreases ids.len(),
{
    if ids.len() > 0 && ids[0] != id {
        lemma_find_id_props(ids.drop_first(), id);
        assert(forall|j: int| 0 < j < ids.len() ==> ids[j] == ids.drop_first()[j - 1]);
    }
}

pub proof fn lemma_find_id_at(ids: Seq<Seq<char>>, id: Seq<char>, i: int)
    requires
        0 <= i < ids.len(),
        ids[i] == id,
        forall|j: int| 0 <= j < i ==> ids[j] != id,
    ensures
        find_id(ids, id) == i,
    decreases i,
{
    if i > 0 {
        lemma_find_id_at(ids.drop_first(), id, i - 1);
    }
}

pub proof fn lemma_find_id_absent(ids: Seq<Seq<char>>, id: Seq<char>)
    requires
        forall|j: int| 0 <= j < ids.len() ==> ids[j] != id,
    ensures
        find_id(ids, id) == -1,
    decreases ids.len(),
{
    if ids.len() > 0 {
        lemma_find_id_absent(ids.drop_first(), id);
    }
}

/// One registered channel: the consumer end of a task's progress queue.
struct ProgressChannel {
    /// Id of the task the channel feeds.
    id: String,
    /// Consumer end; the runner holds the producer end and drops it when its
    /// process exits.
    rx: UnboundedReceiver<u64>,
}

/// The consumer ends of all active tasks' progress channels, in registration
/// order. Its view is the sequence of channel ids.
pub struct ProgressRouter {
    channels: Vec<ProgressChannel>,
}

impl View for ProgressRouter {
    type V = Seq<Seq<char>>;

    closed spec fn view(&self) -> Seq<Seq<char>> {
        self.channels@.map_values(|c: ProgressChannel| c.id@)
    }
}

impl ProgressRouter {
    /// The router's invariant: one channel per task id.
    pub open spec fn wf(&self) -> bool {
        unique_seq_ids(self@)
    }

    /// A router with no channels.
    pub fn new() -> (r: ProgressRouter)
        ensures
            r@ =~= Seq::<Seq<char>>::empty(),
            r.wf(),
    {
        ProgressRouter { channels: Vec::new() }
    }

    /// Number of registered channels.
    pub fn channel_count(&self) -> (r: usize)
        ensures
            r == self@.len(),
    {
        self.channels.len()
    }

    /// Whether a channel for the given id is registered.
    #[verifier::loop_isolation(false)]
    pub fn contains(&self, id: &str) -> (r: bool)
        ensures
            r == (find_id(self@, id@) >= 0),
    {
        let n = self.channels.len();
        let mut i: usize = 0;
        while i < n
            invariant
                0 <= i <= n == self@.len(),
                forall|j: int| 0 <= j < i ==> self@[j] != id@,
            decreases n - i,
        {
            if str_eq(self.channels[i].id.as_str(), id) {
                proof {
                    lemma_find_id_at(self@, id@, i as int);
                }
                return true;
            }
            i += 1;
        }
        proof {
            lemma_find_id_absent(self@, id@);
        }
        false
    }

    /// Registers the consumer end of a fresh task's channel. The id must not
    /// already have a channel; the orchestrator checks before wiring.
    pub fn attach(&mut self, id: String, rx: UnboundedReceiver<u64>)
        requires
            old(self).wf(),
            find_id(old(self)@, id@) == -1,
        ensures
            final(self).wf(),
            final(self)@ =~= old(self)@.push(id@),
    {
        proof {
            lemma_find_id_props(self@, id@);
        }
        self.channels.push(ProgressChannel { id, rx });
        proof {
            assert(self@ =~= old(self)@.push(id@));
        }
    }

    /// Drops the channel for the given id, if any, discarding whatever values
    /// were still waiting on it. Afterwards no channel carries that id.
    pub fn detach(&mut self, id: &str)
        requires
            old(self).wf(),
        ensures
            final(self).wf(),
            find_id(old(self)@, id@) >= 0 ==> final(self)@ =~= old(self)@.remove(
                find_id(old(self)@, id@),
            ),
            find_id(old(self)@, id@) == -1 ==> final(self)@ == old(self)@,
            find_id(final(self)@, id@) == -1,
    {
        proof {
            lemma_find_id_props(self@, id@);
        }
        let n = self.channels.len();
        let mut i: usize = 0;
        while i < n
            invariant
                0 <= i <= n == self@.len(),
                self@ == old(self)@,
                self.wf(),
                forall|j: int| 0 <= j < i ==> self@[j] != id@,
            decreases n - i,
        {
            if str_eq(self.channels[i].id.as_str(), id) {
                proof {
                    lemma_find_id_at(self@, id@, i as int);
                }
                let ghost before = self@;
                self.channels.remove(i);
                proof {
                    assert(self@ =~= before.remove(i as int));
                    assert forall|j: int| 0 <= j < self@.len() implies self@[j] != id@ by {
                        if j < i as int {
                            assert(self@[j] == before[j]);
                        } else {
                            assert(self@[j] == before[j + 1]);
                            assert(before[i as int] == id@);
                            assert(before[i as int] != before[j + 1]);
                        }
                    }
                    lemma_find_id_absent(self@, id@);
                }
                return;
            }
            i += 1;
        }
        proof {
            lemma_find_id_absent(self@, id@);
        }
    }
}

/// Drains up to `DRAIN_LIMIT` waiting values from one channel into the
/// registry, never blocking: the drain stops at the first empty or closed
/// poll. A closed channel is no failure; completion is signaled by progress
/// values, never by channel state.
fn drain_channel(registry: &mut TaskRegistry, ch: &mut ProgressChannel)
    requires
        old(registry).wf(),
    ensures
        final(registry).wf(),
        final(ch).id == old(ch).id,
        final(registry)@.len() == old(registry)@.len(),
        forall|j: int|
            0 <= j < old(registry)@.len() ==> {
                &&& (#[trigger] final(registry)@[j]).video_id == old(registry)@[j].video_id
                &&& final(registry)@[j].title == old(registry)@[j].title
                &&& final(registry)@[j].progress >= old(registry)@[j].progress
            },
        forall|j: int|
            0 <= j < old(registry)@.len() && (#[trigger] old(registry)@[j]).video_id@ != old(
                ch,
            ).id@ ==> final(registry)@[j] == old(registry)@[j],
{
    let mut budget: usize = DRAIN_LIMIT;
    while budget > 0
        invariant
            registry.wf(),
            ch.id == old(ch).id,
            registry@.len() == old(registry)@.len(),
            forall|j: int|
                0 <= j < old(registry)@.len() ==> {
                    &&& (#[trigger] registry@[j]).video_id == old(registry)@[j].video_id
                    &&& registry@[j].title == old(registry)@[j].title
                    &&& registry@[j].progress >= old(registry)@[j].progress
                },
            forall|j: int|
                0 <= j < old(registry)@.len() && (#[trigger] old(registry)@[j]).video_id@ != old(
                    ch,
                ).id@ ==> registry@[j] == old(registry)@[j],
        decreases budget,
    {
        match try_recv_progress(&mut ch.rx) {
            RecvOutcome::Got(v) => {
                registry.apply_progress(ch.id.as_str(), v);
                budget -= 1;
            },
            RecvOutcome::Pending => {
                return ;
            },
            RecvOutcome::Closed => {
                return ;
            },
        }
    }
}

/// One polling cycle: every registered channel hands its waiting values to
/// the registry, in channel order then arrival order; absence of data is not
/// an error. A stale channel — one whose task is no longer registered — is
/// dropped, its waiting values discarded silently, so after a cycle every
/// surviving channel feeds a registered task.
pub fn tick(registry: &mut TaskRegistry, router: &mut ProgressRouter)
    requires
        old(registry).wf(),
        old(router).wf(),
    ensures
        final(registry).wf(),
        final(router).wf(),
        final(registry)@.len() == old(registry)@.len(),
        forall|j: int|
            0 <= j < old(registry)@.len() ==> {
                &&& (#[trigger] final(registry)@[j]).video_id == old(registry)@[j].video_id
                &&& final(registry)@[j].title == old(registry)@[j].title
                &&& final(registry)@[j].progress >= old(registry)@[j].progress
            },
        forall|k: int|
            0 <= k < final(router)@.len() ==> contains_id(
                final(registry)@,
                #[trigger] final(router)@[k],
            ),
        forall|k: int|
            0 <= k < final(router)@.len() ==> old(router)@.contains(#[trigger] final(router)@[k]),
        forall|j: int|
            0 <= j < old(registry)@.len() && !old(router)@.contains(
                (#[trigger] old(registry)@[j]).video_id@,
            ) ==> final(registry)@[j] == old(registry)@[j],
{
    let mut i: usize = 0;
    while i < router.channels.len()
        invariant
            registry.wf(),
            router.wf(),
            0 <= i <= router@.len(),
            registry@.len() == old(registry)@.len(),
            forall|j: int|
                0 <= j < old(registry)@.len() ==> {
                    &&& (#[trigger] registry@[j]).video_id == old(registry)@[j].video_id
                    &&& registry@[j].title == old(registry)@[j].title
                    &&& registry@[j].progress >= old(registry)@[j].progress
                },
            forall|k: int| 0 <= k < i ==> contains_id(registry@, #[trigger] router@[k]),
            forall|k: int|
                0 <= k < router@.len() ==> old(router)@.contains(#[trigger] router@[k]),
            forall|j: int|
                0 <= j < old(registry)@.len() && !old(router)@.contains(
                    (#[trigger] old(registry)@[j]).video_id@,
                ) ==> registry@[j] == old(registry)@[j],
        decreases router@.len() - i,
    {
        let ghost regs_before = registry@;
        let ghost ids_before = router@;
        let present = registry.contains(router.channels[i].id.as_str());
        if present {
            drain_channel(registry, &mut router.channels[i]);
            proof {
                assert(router@ =~= ids_before);
                lemma_find_same_ids(regs_before, registry@, router@[i as int]);
                assert(forall|k: int|
                    0 <= k < i + 1 ==> contains_id(registry@, #[trigger] router@[k])) by {
                    assert(forall|k: int| 0 <= k < i ==> #[trigger] router@[k] == ids_before[k]);
                    assert(forall|k: int|
                        0 <= k < i ==> contains_id(regs_before, #[trigger] ids_before[k]));
                    assert(forall|id: Seq<char>|
                        contains_id(regs_before, id) ==> contains_id(registry@, id)) by {
                        assert forall|id: Seq<char>|
                            contains_id(regs_before, id) implies contains_id(registry@, id) by {
                            lemma_find_same_ids(regs_before, registry@, id);
                        }
                    }
                }
                assert forall|j: int|
                    0 <= j < old(registry)@.len() && !old(router)@.contains(
                        (old(registry)@[j]).video_id@,
                    ) implies registry@[j] == old(registry)@[j] by {
                    assert(regs_before[j] == old(registry)@[j]);
                    assert(old(router)@.contains(ids_before[i as int]));
                    assert(regs_before[j].video_id@ != ids_before[i as int]);
                }
            }
            i += 1;
        } else {
            self_remove(router, i);
            proof {
                assert(forall|k: int|
                    0 <= k < router@.len() ==> #[trigger] router@[k] == if k < i as int {
                        ids_before[k]
                    } else {
                        ids_before[k + 1]
                    });
            }
        }
    }
}

/// Removes the channel at a known index.
fn self_remove(router: &mut ProgressRouter, i: usize)
    requires
        old(router).wf(),
        i < old(router)@.len(),
    ensures
        final(router).wf(),
        final(router)@ =~= old(router)@.remove(i as int),
{
    router.channels.remove(i);
    proof {
        assert(router@ =~= old(router)@.remove(i as int));
    }
}

} // verus!

//! The orchestrator: takes a submission, extracts the video id, registers the
//! task, creates its progress channel, and hands the producer end out for the
//! shell to wire into a background runner.

use vstd::prelude::*;
use vstd::string::*;
use tokio::sync::mpsc::UnboundedSender;
use crate::channel::progress_channel;
use crate::model::{DownloadStatus, DownloadTask};
use crate::registry::{TaskRegistry, contains_id, find_task};
use crate::router::{ProgressRouter, find_id};

verus! {

/// Whether the two characters at `j` open a `v=` marker.
pub open spec fn marker_at(s: Seq<char>, j: int) -> bool {
    0 <= j && j + 1 < s.len() && s[j] == 'v' && s[j + 1] == '='
}

/// Index of the first `v=` marker in `s`; -1 when there is none.
pub open spec fn first_marker(s: Seq<char>) -> int
    decreases s.len(),
{
    if s.len() < 2 {
        -1
    } else if s[0] == 'v' && s[1] == '=' {
        0
    } else {
        let r = first_marker(s.drop_first());
        if r < 0 {
            -1
        } else {
            1 + r
        }
    }
}

/// End of an id that starts at `from`: the first ampersand or further `v=`
/// marker at or after `from`, or the end of the string.
pub open spec fn id_end(s: Seq<char>, from: int) -> int
    decreases s.len() - from,
{
    if from < 0 || from >= s.len() {
        s.len() as int
    } else if s[from] == '&' {
        from
    } else if marker_at(s, from) {
        from
    } else {
        id_end(s, from + 1)
    }
}

/// The video id carried by a URL: the text between the first `v=` and the
/// next ampersand or `v=` marker, if the URL carries a `v=` at all.
pub open spec fn extract_video_id_spec(s: Seq<char>) -> Option<Seq<char>> {
    let m = first_marker(s);
    if m < 0 {
        None
    } else {
        Some(s.subrange(m + 2, id_end(s, m + 2)))
    }
}

proof fn lemma_id_end_bounds(s: Seq<char>, from: int)
    requires
        0 <= from <= s.len(),
    ensures
        from <= id_end(s, from) <= s.len(),
    decreases s.len() - from,
{
    if from < s.len() && s[from] != '&' && !marker_at(s, from) {
        lemma_id_end_bounds(s, from + 1);
    }
}

proof fn lemma_first_marker_at(s: Seq<char>, i: int)
    requires
        marker_at(s, i),
        forall|j: int| 0 <= j < i ==> !marker_at(s, j),
    ensures
        first_marker(s) == i,
    decreases i,
{
    if i == 0 {
    } else {
        assert(!marker_at(s, 0));
        let t = s.drop_first();
        assert(marker_at(t, i - 1));
        assert forall|j: int| 0 <= j < i - 1 implies !marker_at(t, j) by {
            assert(!marker_at(s, j + 1));
        }
        lemma_first_marker_at(t, i - 1);
    }
}

proof fn lemma_first_marker_absent(s: Seq<char>)
    requires
        forall|j: int| 0 <= j ==> !marker_at(s, j),
    ensures
        first_marker(s) == -1,
    decreases s.len(),
{
    if s.len() >= 2 {
        assert(!marker_at(s, 0));
        let t = s.drop_first();
        assert forall|j: int| 0 <= j implies !marker_at(t, j) by {
            assert(!marker_at(s, j + 1));
        }
        lemma_first_marker_absent(t);
    }
}

/// Extracts the video id from a URL: the text between the first `v=` and the
/// next separator. A URL without `v=` carries no id and is rejected.
#[verifier::loop_isolation(false)]
pub fn extract_video_id(url: &str) -> (r: Option<String>)
    ensures
        match extract_video_id_spec(url@) {
            Some(idv) => r matches Some(x) && x@ == idv,
            None => r is None,
        },
{
    let n = url.unicode_len();
    if n == 0 {
        proof {
            lemma_first_marker_absent(url@);
        }
        return None;
    }
    let mut i: usize = 0;
    while i < n - 1
        invariant
            0 <= i <= n == url@.len(),
            n >= 1,
            forall|j: int| 0 <= j < i ==> !marker_at(url@, j),
        decreases n - i,
    {
        if url.get_char(i) == 'v' && url.get_char(i + 1) == '=' {
            proof {
                lemma_first_marker_at(url@, i as int);
            }
            let start = i + 2;
            let mut j = start;
            while j < n
                invariant
                    start <= j <= n,
                    id_end(url@, start as int) == id_end(url@, j as int),
                decreases n - j,
            {
                let c = url.get_char(j);
                if c == '&' {
                    break ;
                }
                if c == 'v' && j + 1 < n && url.get_char(j + 1) == '=' {
                    break ;
                }
                j += 1;
            }
            proof {
                assert(id_end(url@, start as int) == j as int);
            }
            let id = url.substring_char(start, j);
            return Some(id.to_owned());
        }
        i += 1;
    }
    proof {
        assert forall|j: int| 0 <= j implies !marker_at(url@, j) by {
            if j + 1 < n as int {
                assert(j < i as int);
            }
        }
        lemma_first_marker_absent(url@);
    }
    None
}

/// Accepts one submission: extracts the video id, registers a fresh task
/// (`Downloading`, no progress yet, titled after the id), creates the task's
/// progress channel, wires the consumer end into the router, and returns the
/// id with the producer end for the shell's background runner. A URL without
/// an id, or an id already active, is refused and changes nothing.
pub fn submit(registry: &mut TaskRegistry, router: &mut ProgressRouter, url: &str) -> (r: Option<
    (String, UnboundedSender<u64>),
>)
    requires
        old(registry).wf(),
        old(router).wf(),
    ensures
        final(registry).wf(),
        final(router).wf(),
        match extract_video_id_spec(url@) {
            None => r is None && final(registry)@ == old(registry)@ && final(router)@ == old(
                router,
            )@,
            Some(idv) => {
                if contains_id(old(registry)@, idv) || find_id(old(router)@, idv) >= 0 {
                    &&& r is None
                    &&& final(registry)@ == old(registry)@
                    &&& final(router)@ == old(router)@
                } else {
                    &&& r matches Some(p) && p.0@ == idv
                    &&& final(registry)@.len() == old(registry)@.len() + 1
                    &&& final(registry)@ =~= old(registry)@.push(final(registry)@.last())
                    &&& final(registry)@.last().video_id@ == idv
                    &&& final(registry)@.last().title@ == "Video ID: "@ + idv
                    &&& final(registry)@.last().status is Downloading
                    &&& final(registry)@.last().progress == 0
                    &&& final(router)@ =~= old(router)@.push(idv)
                }
            },
        },
{
    let id = match extract_video_id(url) {
        None => {
            return None;
        },
        Some(id) => id,
    };
    if registry.contains(id.as_str()) {
        return None;
    }
    if router.contains(id.as_str()) {
        return None;
    }
    let title = String::from_str("Video ID: ").concat(id.as_str());
    let (tx, rx) = progress_channel();
    let inserted = registry.insert(id.clone(), title);
    proof {
        assert(inserted);
    }
    router.attach(id.clone(), rx);
    Some((id, tx))
}

/// Removes a task and its channel together: afterwards neither the registry
/// nor the router knows the id, and any progress values still queued for it
/// are discarded without error. Meant for a task that has reached `Done`,
/// though nothing breaks when the consumer removes one earlier — the
/// underlying process simply keeps running detached.
pub fn remove_task(registry: &mut TaskRegistry, router: &mut ProgressRouter, id: &str)
    requires
        old(registry).wf(),
        old(router).wf(),
    ensures
        final(registry).wf(),
        final(router).wf(),
        !contains_id(final(registry)@, id@),
        find_id(final(router)@, id@) == -1,
        contains_id(old(registry)@, id@) ==> final(registry)@ =~= old(registry)@.remove(
            find_task(old(registry)@, id@),
        ),
        !contains_id(old(registry)@, id@) ==> final(registry)@ == old(registry)@,
        find_id(old(router)@, id@) >= 0 ==> final(router)@ =~= old(router)@.remove(
            find_id(old(router)@, id@),
        ),
        find_id(old(router)@, id@) == -1 ==> final(router)@ == old(router)@,
{
    registry.remove(id);
    router.detach(id);
}

} // verus!

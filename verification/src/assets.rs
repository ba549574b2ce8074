//! The executable payload store and its materialization rule.
//!
//! The external download tool ships as a named binary blob, embedded by the
//! shell at build time; `Asset` models that store as a lookup table from name
//! to raw bytes. Before the first download the blob must be materialized at a
//! well-known writable path; `materialize_step` is the decision rule for that
//! step over the modeled file state, and `lemma_materialize_idempotent`
//! states that doing it twice writes exactly once.

use vstd::prelude::*;
use crate::text::str_eq;

verus! {

/// One named blob: a platform-specific binary name and its raw bytes.
pub struct AssetEntry {
    /// The blob's name.
    pub name: String,
    /// The blob's bytes.
    pub data: Vec<u8>,
}

/// Index of the first entry with the given name; -1 when there is none.
pub open spec fn find_entry(s: Seq<AssetEntry>, name: Seq<char>) -> int
    decreases s.len(),
{
    if s.len() == 0 {
        -1
    } else if s[0].name@ == name {
        0
    } else {
        let r = find_entry(s.drop_first(), name);
        if r < 0 {
            -1
        } else {
            1 + r
        }
    }
}

pub proof fn lemma_find_entry_props(s: Seq<AssetEntry>, name: Seq<char>)
    ensures
        find_entry(s, name) == -1 || 0 <= find_entry(s, name) < s.len(),
        find_entry(s, name) >= 0 ==> s[find_entry(s, name)].name@ == name,
        find_entry(s, name) == -1 ==> forall|j: int|
            0 <= j < s.len() ==> (#[trigger] s[j]).name@ != name,
    decreases s.len(),
{
    if s.len() > 0 && s[0].name@ != name {
        lemma_find_entry_props(s.drop_first(), name);
        assert(forall|j: int| 0 < j < s.len() ==> (#[trigger] s[j]) == s.drop_first()[j - 1]);
    }
}

proof fn lemma_find_entry_at(s: Seq<AssetEntry>, name: Seq<char>, i: int)
    requires
        0 <= i < s.len(),
        s[i].name@ == name,
        forall|j: int| 0 <= j < i ==> (#[trigger] s[j]).name@ != name,
    ensures
        find_entry(s, name) == i,
    decreases i,
{
    if i > 0 {
        lemma_find_entry_at(s.drop_first(), name, i - 1);
    }
}

proof fn lemma_find_entry_absent(s: Seq<AssetEntry>, name: Seq<char>)
    requires
        forall|j: int| 0 <= j < s.len() ==> (#[trigger] s[j]).name@ != name,
    ensures
        find_entry(s, name) == -1,
    decreases s.len(),
{
    if s.len() > 0 {
        lemma_find_entry_absent(s.drop_first(), name);
    }
}

/// The embedded payload store: named blobs, looked up by name. The shell
/// fills it once at startup from whatever carries the binaries.
pub struct Asset {
    entries: Vec<AssetEntry>,
}

impl View for Asset {
    type V = Seq<AssetEntry>;

    closed spec fn view(&self) -> Seq<AssetEntry> {
        self.entries@
    }
}

impl Asset {
    /// Names are unique in the store.
    pub open spec fn wf(&self) -> bool {
        forall|i: int, j: int| 0 <= i < j < self@.len() ==> self@[i].name@ != self@[j].name@
    }

    /// An empty store.
    pub fn new() -> (r: Asset)
        ensures
            r@ =~= Seq::<AssetEntry>::empty(),
            r.wf(),
    {
        Asset { entries: Vec::new() }
    }

    /// Adds a named blob; refuses a name already stored.
    pub fn insert(&mut self, name: String, data: Vec<u8>) -> (r: bool)
        requires
            old(self).wf(),
        ensures
            final(self).wf(),
            r == (find_entry(old(self)@, name@) == -1),
            r ==> final(self)@ =~= old(self)@.push(AssetEntry { name: name, data: data }),
            !r ==> final(self)@ == old(self)@,
    {
        if self.position(name.as_str()).is_some() {
            return false;
        }
        proof {
            lemma_find_entry_props(self@, name@);
        }
        let ghost before = self@;
        self.entries.push(AssetEntry { name, data });
        proof {
            assert(forall|i: int| 0 <= i < before.len() ==> self@[i] == before[i]);
        }
        true
    }

    /// Index of the entry with the given name, if any.
    #[verifier::loop_isolation(false)]
    fn position(&self, name: &str) -> (r: Option<usize>)
        ensures
            match r {
                Some(i) => 0 <= i < self@.len() && find_entry(self@, name@) == i,
                None => find_entry(self@, name@) == -1,
            },
    {
        let n = self.entries.len();
        let mut i: usize = 0;
        while i < n
            invariant
                0 <= i <= n == self@.len(),
                forall|j: int| 0 <= j < i ==> (#[trigger] self@[j]).name@ != name@,
            decreases n - i,
        {
            if str_eq(self.entries[i].name.as_str(), name) {
                proof {
                    lemma_find_entry_at(self@, name@, i as int);
                }
                return Some(i);
            }
            i += 1;
        }
        proof {
            lemma_find_entry_absent(self@, name@);
        }
        None
    }

    /// The bytes stored under the given name, if any.
    pub fn get(&self, name: &str) -> (r: Option<&Vec<u8>>)
        ensures
            match r {
                Some(d) => find_entry(self@, name@) >= 0 && d@ == self@[find_entry(
                    self@,
                    name@,
                )].data@,
                None => find_entry(self@, name@) == -1,
            },
    {
        match self.position(name) {
            Some(i) => Some(&self.entries[i].data),
            None => None,
        }
    }
}

/// The "ensure the executable is present" rule over the modeled contents of
/// the target file (`None` when the file is absent): write the payload only
/// when the file is absent, and report whether a write happened.
pub open spec fn materialize_spec(cur: Option<Seq<u8>>, payload: Seq<u8>) -> (Option<Seq<u8>>, bool) {
    if cur is Some {
        (cur, false)
    } else {
        (Some(payload), true)
    }
}

/// One "ensure the executable is present" step. The shell reads the file
/// state, runs this step, and performs the real write only when told to —
/// atomically, by writing to a uniquely-named temporary path and renaming it
/// into place, so that concurrent first downloads cannot see a partial file.
pub fn materialize_step(current: Option<Vec<u8>>, payload: Vec<u8>) -> (r: (Option<Vec<u8>>, bool))
    ensures
        match current {
            Some(c) => r == (Some(c), false),
            None => r == (Some(payload), true),
        },
{
    match current {
        Some(c) => (Some(c), false),
        None => (Some(payload), true),
    }
}

/// Idempotent materialization: running the "ensure present" step twice from
/// an absent file writes exactly once — the second run sees the file and
/// performs no redundant write — and exactly the payload is in place at the
/// end.
pub proof fn lemma_materialize_idempotent(payload: Seq<u8>)
    ensures
        materialize_spec(None, payload).1 == true,
        materialize_spec(materialize_spec(None, payload).0, payload).1 == false,
        materialize_spec(materialize_spec(None, payload).0, payload).0 == Some(payload),
{
}

} // verus!

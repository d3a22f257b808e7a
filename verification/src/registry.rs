//! Registry of live speech processes: a table from opaque handles to the
//! slots holding their process references. A speak request mints a handle
//! and registers it; a stop request removes the handle and has its process
//! killed, or — for a handle no longer present — falls back to stopping
//! every speech process while still reporting success.

use vstd::prelude::*;
use vstd::string::*;
use crate::results::{FailureKind, TtsResult};
use crate::strutil::str_eq;

verus! {

/// One live speech process: its caller-visible handle and the slot under
/// which the surrounding application holds the process reference.
pub struct RegistryEntry {
    pub handle: String,
    pub slot: u64,
}

/// What a stop decision obliges the surrounding application to do.
#[derive(Clone, Copy, PartialEq, Eq, Structural, Debug)]
pub enum StopAction {
    /// Terminate and reap the process held in this slot.
    KillOne(u64),
    /// Best effort: terminate every speech process of this kind.
    KillAll,
}

/// No two entries share a handle.
pub open spec fn unique_handles(entries: Seq<RegistryEntry>) -> bool {
    forall|i: int, j: int|
        0 <= i < j < entries.len() ==> entries[i].handle@ != entries[j].handle@
}

/// The mapping a sequence of entries denotes.
pub open spec fn map_of(entries: Seq<RegistryEntry>) -> Map<Seq<char>, u64>
    decreases entries.len(),
{
    if entries.len() == 0 {
        Map::empty()
    } else {
        map_of(entries.drop_last()).insert(entries.last().handle@, entries.last().slot)
    }
}

proof fn lemma_map_of_keys(entries: Seq<RegistryEntry>)
    ensures
        forall|h: Seq<char>|
            map_of(entries).contains_key(h) <==> exists|i: int|
                0 <= i < entries.len() && (#[trigger] entries[i].handle@) == h,
    decreases entries.len(),
{
    if entries.len() > 0 {
        lemma_map_of_keys(entries.drop_last());
        let dl = entries.drop_last();
        assert forall|h: Seq<char>| map_of(entries).contains_key(h) <==> exists|i: int|
            0 <= i < entries.len() && (#[trigger] entries[i].handle@) == h by {
            if map_of(entries).contains_key(h) {
                if h == entries.last().handle@ {
                    assert(entries[entries.len() - 1].handle@ == h);
                } else {
                    assert(map_of(dl).contains_key(h));
                    let i = choose|i: int| 0 <= i < dl.len() && (#[trigger] dl[i].handle@) == h;
                    assert(dl[i] == entries[i]);
                    assert(entries[i].handle@ == h);
                }
            }
            if exists|i: int| 0 <= i < entries.len() && (#[trigger] entries[i].handle@) == h {
                let i = choose|i: int|
                    0 <= i < entries.len() && (#[trigger] entries[i].handle@) == h;
                if i < entries.len() - 1 {
                    assert(dl[i] == entries[i]);
                    assert(dl[i].handle@ == h);
                    assert(map_of(dl).contains_key(h));
                }
            }
        }
    }
}

proof fn lemma_map_of_lookup(entries: Seq<RegistryEntry>, i: int)
    requires
        unique_handles(entries),
        0 <= i < entries.len(),
    ensures
        map_of(entries).contains_key(entries[i].handle@),
        map_of(entries)[entries[i].handle@] == entries[i].slot,
    decreases entries.len(),
{
    if i == entries.len() - 1 {
    } else {
        let dl = entries.drop_last();
        assert(dl[i] == entries[i]);
        lemma_map_of_lookup(dl, i);
        assert(entries[i].handle@ != entries.last().handle@);
    }
}

proof fn lemma_map_of_remove(entries: Seq<RegistryEntry>, i: int)
    requires
        unique_handles(entries),
        0 <= i < entries.len(),
    ensures
        map_of(entries.remove(i)) == map_of(entries).remove(entries[i].handle@),
    decreases entries.len(),
{
    let h = entries[i].handle@;
    if i == entries.len() - 1 {
        let dl = entries.drop_last();
        assert(entries.remove(i) =~= dl);
        lemma_map_of_keys(dl);
        assert(!map_of(dl).contains_key(h));
        assert(map_of(entries).remove(h) =~= map_of(dl));
    } else {
        let dl = entries.drop_last();
        assert(dl[i] == entries[i]);
        lemma_map_of_remove(dl, i);
        assert(entries.remove(i).drop_last() =~= dl.remove(i));
        assert(entries.remove(i).last() == entries.last());
        assert(h != entries.last().handle@);
        assert(map_of(entries.remove(i)) == map_of(dl.remove(i)).insert(
            entries.last().handle@,
            entries.last().slot,
        ));
        assert(map_of(entries).remove(h) =~= map_of(dl).remove(h).insert(
            entries.last().handle@,
            entries.last().slot,
        ));
    }
}

/// The table of live speech processes.
pub struct ProcessRegistry {
    entries: Vec<RegistryEntry>,
}

impl ProcessRegistry {
    /// The registry is well formed: no two entries share a handle.
    pub closed spec fn wf(self) -> bool {
        unique_handles(self.entries@)
    }

    /// The mapping from handle to process slot the registry holds.
    pub closed spec fn view_map(self) -> Map<Seq<char>, u64> {
        map_of(self.entries@)
    }

    /// An empty registry.
    pub fn new() -> (r: ProcessRegistry)
        ensures
            r.wf(),
            r.view_map() == Map::<Seq<char>, u64>::empty(),
    {
        ProcessRegistry { entries: Vec::new() }
    }

    /// The index of the entry with this handle, or the number of entries.
    fn find_handle(&self, handle: &str) -> (r: usize)
        ensures
            r <= self.entries@.len(),
            r < self.entries@.len() ==> self.entries@[r as int].handle@ == handle@,
            r == self.entries@.len() ==> !self.view_map().contains_key(handle@),
    {
        let n = self.entries.len();
        let mut i: usize = 0;
        while i < n
            invariant
                i <= n,
                n == self.entries@.len(),
                forall|k: int| 0 <= k < i ==> (#[trigger] self.entries@[k].handle@) != handle@,
            decreases n - i,
        {
            if str_eq(self.entries[i].handle.as_str(), handle) {
                return i;
            }
            i += 1;
        }
        proof {
            lemma_map_of_keys(self.entries@);
        }
        i
    }

    /// Whether a live process is registered under this handle.
    pub fn contains_handle(&self, handle: &str) -> (r: bool)
        requires
            self.wf(),
        ensures
            r == self.view_map().contains_key(handle@),
    {
        let i = self.find_handle(handle);
        proof {
            if i < self.entries@.len() {
                lemma_map_of_lookup(self.entries@, i as int);
            }
        }
        i < self.entries.len()
    }

    /// Registers a live process under `handle`: the handle is added exactly
    /// when it is fresh, and an occupied handle leaves the registry
    /// unchanged.
    pub fn register(&mut self, handle: String, slot: u64) -> (fresh: bool)
        requires
            old(self).wf(),
        ensures
            final(self).wf(),
            fresh == !old(self).view_map().contains_key(handle@),
            fresh ==> final(self).view_map() == old(self).view_map().insert(handle@, slot),
            !fresh ==> *final(self) == *old(self),
    {
        let i = self.find_handle(handle.as_str());
        if i < self.entries.len() {
            proof {
                lemma_map_of_lookup(self.entries@, i as int);
            }
            false
        } else {
            let ghost pre = self.entries@;
            self.entries.push(RegistryEntry { handle, slot });
            proof {
                lemma_map_of_keys(pre);
                assert(self.entries@.drop_last() =~= pre);
                assert forall|p: int, q: int|
                    0 <= p < q < self.entries@.len() implies self.entries@[p].handle@
                    != self.entries@[q].handle@ by {
                    if q == self.entries@.len() - 1 {
                        assert(self.entries@[p] == pre[p]);
                    }
                }
            }
            true
        }
    }

    /// Mints a fresh handle for a just-spawned speech process and registers
    /// it; the result carries the handle the caller stops the speech with.
    pub fn register_speech(&mut self, slot: u64) -> (r: TtsResult)
        requires
            old(self).wf(),
        ensures
            final(self).wf(),
            r.wf(),
            r.success ==> (r.process_id matches Some(h) && !old(self).view_map().contains_key(h@)
                && final(self).view_map() == old(self).view_map().insert(h@, slot)),
            !r.success ==> *final(self) == *old(self),
    {
        let handle = crate::shims::fresh_id();
        let copy = handle.clone();
        if self.register(copy, slot) {
            TtsResult::started(handle)
        } else {
            TtsResult::failure(FailureKind::SpawnError, "a speech handle was already registered")
        }
    }

    /// Decides a stop request. A registered handle is removed and its
    /// process is to be killed and reaped; a handle that is absent — never
    /// issued, already stopped, or long finished — falls back to stopping
    /// every speech process, and the request still reports success.
    pub fn stop_speaking(&mut self, handle: &str) -> (r: (TtsResult, StopAction))
        requires
            old(self).wf(),
        ensures
            final(self).wf(),
            r.0.wf(),
            r.0.success,
            r.0.process_id is None,
            r.0.error_message is None,
            old(self).view_map().contains_key(handle@) ==> (r.1 == StopAction::KillOne(
                old(self).view_map()[handle@],
            ) && final(self).view_map() == old(self).view_map().remove(handle@)),
            !old(self).view_map().contains_key(handle@) ==> (r.1 == StopAction::KillAll
                && *final(self) == *old(self)),
    {
        let i = self.find_handle(handle);
        if i < self.entries.len() {
            proof {
                lemma_map_of_lookup(self.entries@, i as int);
                lemma_map_of_remove(self.entries@, i as int);
            }
            let slot = self.entries[i].slot;
            let ghost pre = self.entries@;
            self.entries.remove(i);
            proof {
                assert forall|p: int, q: int|
                    0 <= p < q < self.entries@.len() implies self.entries@[p].handle@
                    != self.entries@[q].handle@ by {
                    let pp = if p < i { p } else { p + 1 };
                    let qq = if q < i { q } else { q + 1 };
                    assert(self.entries@[p] == pre[pp]);
                    assert(self.entries@[q] == pre[qq]);
                }
            }
            (TtsResult::done(), StopAction::KillOne(slot))
        } else {
            (TtsResult::done(), StopAction::KillAll)
        }
    }
}

/// Two speech registrations mint distinct handles, and stopping the first
/// leaves the second registered with its slot — its process, and hence its
/// completion notification, are unaffected.
pub proof fn lemma_concurrent_speaks_independent(
    m0: Map<Seq<char>, u64>,
    h1: Seq<char>,
    s1: u64,
    h2: Seq<char>,
    s2: u64,
)
    requires
        !m0.contains_key(h1),
        !m0.insert(h1, s1).contains_key(h2),
    ensures
        h1 != h2,
        m0.insert(h1, s1).insert(h2, s2).contains_key(h1),
        m0.insert(h1, s1).insert(h2, s2).contains_key(h2),
        m0.insert(h1, s1).insert(h2, s2).remove(h1).contains_key(h2),
        m0.insert(h1, s1).insert(h2, s2).remove(h1)[h2] == s2,
{
}

} // verus!

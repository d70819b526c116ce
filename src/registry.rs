use vstd::prelude::*;
use crate::instance::OverlayInstance;
use crate::preset::Preset;

verus! {

/// One live overlay: its handle, the saved preset it belongs to (none until
/// it is first saved), the configuration it was spawned from, and its state.
pub struct Entry {
    pub handle: u64,
    pub preset_id: Option<String>,
    pub source: Preset,
    pub instance: OverlayInstance,
}

/// Whether `e` belongs to the saved preset `id`.
pub open spec fn bound_to(e: Entry, id: Seq<char>) -> bool {
    e.preset_id is Some && e.preset_id->0@ == id
}

pub open spec fn has_handle(s: Seq<Entry>, h: u64) -> bool {
    exists|i: int| 0 <= i < s.len() && #[trigger] s[i].handle == h
}

/// Position of the entry with handle `h`, if any.
pub open spec fn handle_index(s: Seq<Entry>, h: u64) -> Option<int> {
    if has_handle(s, h) {
        Some(choose|i: int| 0 <= i < s.len() && #[trigger] s[i].handle == h)
    } else {
        None
    }
}

pub open spec fn handles_unique(s: Seq<Entry>) -> bool {
    forall|i: int, j: int|
        0 <= i < s.len() && 0 <= j < s.len() && i != j ==> #[trigger] s[i].handle
            != #[trigger] s[j].handle
}

/// Handles of the entries of `s` that belong to preset `id`, in order.
pub open spec fn bound_handles(s: Seq<Entry>, id: Seq<char>) -> Seq<u64>
    decreases s.len(),
{
    if s.len() == 0 {
        Seq::empty()
    } else if bound_to(s.last(), id) {
        bound_handles(s.drop_last(), id).push(s.last().handle)
    } else {
        bound_handles(s.drop_last(), id)
    }
}

/// The entries of `s` that do not belong to preset `id`, in order.
pub open spec fn unbound_entries(s: Seq<Entry>, id: Seq<char>) -> Seq<Entry>
    decreases s.len(),
{
    if s.len() == 0 {
        s
    } else if bound_to(s.last(), id) {
        unbound_entries(s.drop_last(), id)
    } else {
        unbound_entries(s.drop_last(), id).push(s.last())
    }
}

/// Whether the entry with handle `h` exists and is not bound to a preset
/// yet.
pub open spec fn can_rebind(s: Seq<Entry>, h: u64) -> bool {
    match handle_index(s, h) {
        Some(i) => s[i].preset_id is None,
        None => false,
    }
}

/// `s` with the entry at `i` bound to preset `id`.
pub open spec fn rebound(s: Seq<Entry>, i: int, id: String) -> Seq<Entry> {
    s.update(i, Entry { preset_id: Some(id), ..s[i] })
}

/// Handles are unique and every instance shows its projection.
pub open spec fn entries_wf(s: Seq<Entry>, global_hide: bool) -> bool {
    &&& handles_unique(s)
    &&& forall|i: int| 0 <= i < s.len() ==> (#[trigger] s[i]).instance.wf(global_hide)
}

/// The live overlays, in the order they were opened.
pub struct ActiveRegistry {
    pub entries: Vec<Entry>,
}

impl ActiveRegistry {
    pub open spec fn wf(&self, global_hide: bool) -> bool {
        entries_wf(self.entries@, global_hide)
    }

    pub fn new() -> (r: ActiveRegistry)
        ensures
            r.entries@.len() == 0,
            r.wf(false),
            r.wf(true),
    {
        ActiveRegistry { entries: Vec::new() }
    }

    pub fn len(&self) -> (r: usize)
        ensures
            r == self.entries@.len(),
    {
        self.entries.len()
    }

    /// Position of the entry with handle `h`: a handle of a closed overlay
    /// finds nothing.
    pub fn index_of(&self, h: u64) -> (r: Option<usize>)
        requires
            handles_unique(self.entries@),
        ensures
            r is None <==> handle_index(self.entries@, h) is None,
            r is Some ==> handle_index(self.entries@, h) == Some(r->0 as int) && r->0
                < self.entries@.len(),
    {
        let mut i: usize = 0;
        while i < self.entries.len()
            invariant
                i <= self.entries@.len(),
                handles_unique(self.entries@),
                forall|k: int| 0 <= k < i ==> #[trigger] self.entries@[k].handle != h,
            decreases self.entries@.len() - i,
        {
            if self.entries[i].handle == h {
                proof {
                    assert(has_handle(self.entries@, h));
                    let c = choose|k: int|
                        0 <= k < self.entries@.len() && #[trigger] self.entries@[k].handle == h;
                    assert(self.entries@[i as int].handle == h);
                    if c != i {
                        assert(self.entries@[c].handle != self.entries@[i as int].handle);
                    }
                }
                return Some(i);
            }
            i = i + 1;
        }
        None
    }

    pub fn register(&mut self, e: Entry)
        requires
            handles_unique(old(self).entries@),
            !has_handle(old(self).entries@, e.handle),
        ensures
            handles_unique(final(self).entries@),
            final(self).entries@ == old(self).entries@.push(e),
    {
        let ghost before = self.entries@;
        self.entries.push(e);
        proof {
            assert forall|a: int, b: int|
                0 <= a < self.entries@.len() && 0 <= b < self.entries@.len() && a != b
                implies #[trigger] self.entries@[a].handle != #[trigger] self.entries@[b].handle by {
                if a == before.len() {
                    assert(self.entries@[b] == before[b]);
                } else if b == before.len() {
                    assert(self.entries@[a] == before[a]);
                }
            }
        }
    }

    /// Removes the entry with handle `h` and hands it back.
    pub fn unregister(&mut self, h: u64) -> (r: Option<Entry>)
        requires
            handles_unique(old(self).entries@),
        ensures
            handles_unique(final(self).entries@),
            match handle_index(old(self).entries@, h) {
                Some(i) => r == Some(old(self).entries@[i]) && final(self).entries@ == old(
                    self,
                ).entries@.remove(i),
                None => r is None && final(self).entries@ == old(self).entries@,
            },
    {
        match self.index_of(h) {
            None => None,
            Some(i) => {
                let ghost before = self.entries@;
                let e = self.entries.remove(i);
                proof {
                    assert forall|a: int, b: int|
                        0 <= a < self.entries@.len() && 0 <= b < self.entries@.len() && a != b
                        implies #[trigger] self.entries@[a].handle
                        != #[trigger] self.entries@[b].handle by {
                        let a0 = if a < i { a } else { a + 1 };
                        let b0 = if b < i { b } else { b + 1 };
                        assert(self.entries@[a] == before[a0]);
                        assert(self.entries@[b] == before[b0]);
                    }
                }
                Some(e)
            },
        }
    }

    /// Handles of every live overlay of preset `id`, in registry order.
    pub fn find_by_preset(&self, id: &String) -> (r: Vec<u64>)
        ensures
            r@ == bound_handles(self.entries@, id@),
    {
        let mut r: Vec<u64> = Vec::new();
        let mut i: usize = 0;
        while i < self.entries.len()
            invariant
                i <= self.entries@.len(),
                r@ == bound_handles(self.entries@.subrange(0, i as int), id@),
            decreases self.entries@.len() - i,
        {
            proof {
                assert(self.entries@.subrange(0, i + 1).drop_last() =~= self.entries@.subrange(
                    0,
                    i as int,
                ));
            }
            let matches = match &self.entries[i].preset_id {
                Some(p) => *p == *id,
                None => false,
            };
            if matches {
                r.push(self.entries[i].handle);
            }
            i = i + 1;
        }
        proof {
            assert(self.entries@.subrange(0, self.entries@.len() as int) =~= self.entries@);
        }
        r
    }

    /// Binds the unsaved overlay with handle `h` to preset `id`. An entry
    /// is bound at most once: a bound or unknown handle is refused.
    pub fn rebind(&mut self, h: u64, id: String) -> (r: bool)
        requires
            handles_unique(old(self).entries@),
        ensures
            r == can_rebind(old(self).entries@, h),
            r ==> final(self).entries@ == rebound(
                old(self).entries@,
                handle_index(old(self).entries@, h)->0,
                id,
            ),
            !r ==> final(self).entries@ == old(self).entries@,
            handles_unique(final(self).entries@),
            forall|g: bool| old(self).wf(g) ==> final(self).wf(g),
    {
        match self.index_of(h) {
            None => false,
            Some(i) => {
                if self.entries[i].preset_id.is_some() {
                    return false;
                }
                let ghost before = self.entries@;
                self.entries[i].preset_id = Some(id);
                proof {
                    assert(self.entries@ == rebound(before, i as int, id));
                    assert forall|a: int, b: int|
                        0 <= a < self.entries@.len() && 0 <= b < self.entries@.len() && a != b
                        implies #[trigger] self.entries@[a].handle
                        != #[trigger] self.entries@[b].handle by {
                        assert(before[a].handle == self.entries@[a].handle);
                        assert(before[b].handle == self.entries@[b].handle);
                    }
                    assert forall|g: bool| entries_wf(before, g) implies #[trigger] self.wf(g) by {
                        assert forall|k: int| 0 <= k < self.entries@.len() implies (
                        #[trigger] self.entries@[k]).instance.wf(g) by {
                            assert(before[k].instance == self.entries@[k].instance);
                        }
                    }
                }
                true
            },
        }
    }
}

/// An unsaved entry is bound to a preset at most once: after the first
/// rebind it belongs to that preset, and every further rebind of its handle
/// is refused, so its preset stays the one first given.
pub proof fn lemma_rebind_once(s: Seq<Entry>, h: u64, id: String)
    requires
        handles_unique(s),
        can_rebind(s, h),
    ensures
        ({
            let i = handle_index(s, h)->0;
            let s1 = rebound(s, i, id);
            &&& handles_unique(s1)
            &&& handle_index(s1, h) == Some(i)
            &&& s1[i].preset_id == Some(id)
            &&& !can_rebind(s1, h)
        }),
{
    let i = handle_index(s, h)->0;
    let s1 = rebound(s, i, id);
    assert(s1[i].handle == h);
    assert(has_handle(s1, h));
    let c = choose|k: int| 0 <= k < s1.len() && #[trigger] s1[k].handle == h;
    if c != i {
        assert(s[c].handle == s1[c].handle);
        assert(s[c].handle != s[i].handle);
    }
    assert forall|a: int, b: int|
        0 <= a < s1.len() && 0 <= b < s1.len() && a != b implies #[trigger] s1[a].handle
        != #[trigger] s1[b].handle by {
        assert(s[a].handle == s1[a].handle);
        assert(s[b].handle == s1[b].handle);
    }
}

} // verus!

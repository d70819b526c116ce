use vstd::prelude::*;

verus! {

/// Hide delay, in seconds, of a preset that does not state one.
pub const DEFAULT_HIDE_DELAY: u64 = 3;

/// A named, persisted overlay configuration.
pub struct Preset {
    /// Opaque identity, stable across renames.
    pub id: String,
    pub name: String,
    /// Image source reference.
    pub path: String,
    /// Edge length of the square overlay.
    pub width: i32,
    /// Spawn position in logical desktop coordinates.
    pub x: i32,
    pub y: i32,
    pub smart_hide: bool,
    pub always_on_top: bool,
    /// Seconds before a hover-hidden overlay reappears.
    pub hide_delay: u64,
}

/// The hide delay that a stored preset gets when its record has none.
pub fn default_delay() -> (r: u64)
    ensures
        r == DEFAULT_HIDE_DELAY,
{
    DEFAULT_HIDE_DELAY
}

pub fn clone_preset(p: &Preset) -> (r: Preset)
    ensures
        r == *p,
{
    Preset {
        id: p.id.clone(),
        name: p.name.clone(),
        path: p.path.clone(),
        width: p.width,
        x: p.x,
        y: p.y,
        smart_hide: p.smart_hide,
        always_on_top: p.always_on_top,
        hide_delay: p.hide_delay,
    }
}

/// Whether some preset of `s` has the identity `id`.
pub open spec fn has_id(s: Seq<Preset>, id: Seq<char>) -> bool {
    exists|i: int| 0 <= i < s.len() && #[trigger] s[i].id@ == id
}

/// No two presets of `s` share an identity.
pub open spec fn ids_unique(s: Seq<Preset>) -> bool {
    forall|i: int, j: int|
        0 <= i < s.len() && 0 <= j < s.len() && i != j ==> #[trigger] s[i].id@ != #[trigger] s[j].id@
}

/// The presets of `s` that carry the first occurrence of their identity, in
/// their order.
pub open spec fn first_occurrences(s: Seq<Preset>) -> Seq<Preset>
    decreases s.len(),
{
    if s.len() == 0 {
        s
    } else {
        let rest = first_occurrences(s.drop_last());
        if has_id(rest, s.last().id@) {
            rest
        } else {
            rest.push(s.last())
        }
    }
}

/// The saved presets, at most one per identity, in the order they were
/// added.
pub struct PresetStore {
    pub presets: Vec<Preset>,
}

impl PresetStore {
    pub open spec fn wf(&self) -> bool {
        ids_unique(self.presets@)
    }

    pub open spec fn contains(&self, id: Seq<char>) -> bool {
        has_id(self.presets@, id)
    }

    pub fn new() -> (r: PresetStore)
        ensures
            r.wf(),
            r.presets@.len() == 0,
    {
        PresetStore { presets: Vec::new() }
    }

    /// Index of the preset whose identity is `id`.
    pub fn position(&self, id: &String) -> (r: Option<usize>)
        ensures
            r is None <==> !has_id(self.presets@, id@),
            r is Some ==> r->0 < self.presets@.len() && self.presets@[r->0 as int].id@ == id@,
    {
        let mut i: usize = 0;
        while i < self.presets.len()
            invariant
                i <= self.presets@.len(),
                forall|k: int| 0 <= k < i ==> #[trigger] self.presets@[k].id@ != id@,
            decreases self.presets@.len() - i,
        {
            if self.presets[i].id == *id {
                return Some(i);
            }
            i = i + 1;
        }
        None
    }

    /// Builds a store from a loaded list, keeping the first preset of each
    /// identity.
    pub fn from_list(list: Vec<Preset>) -> (r: PresetStore)
        ensures
            r.wf(),
            r.presets@ == first_occurrences(list@),
    {
        let mut store = PresetStore::new();
        let mut i: usize = 0;
        while i < list.len()
            invariant
                i <= list@.len(),
                store.wf(),
                store.presets@ == first_occurrences(list@.subrange(0, i as int)),
            decreases list@.len() - i,
        {
            let p = clone_preset(&list[i]);
            proof {
                assert(list@.subrange(0, i + 1).drop_last() =~= list@.subrange(0, i as int));
                assert(list@.subrange(0, i + 1).last() == list@[i as int]);
            }
            let found = store.position(&p.id);
            if found.is_none() {
                let ghost before = store.presets@;
                store.presets.push(p);
                proof {
                    assert forall|a: int, b: int|
                        0 <= a < store.presets@.len() && 0 <= b < store.presets@.len() && a != b
                        implies #[trigger] store.presets@[a].id@ != #[trigger] store.presets@[b].id@ by {
                        if a == before.len() {
                            assert(store.presets@[b] == before[b]);
                        } else if b == before.len() {
                            assert(store.presets@[a] == before[a]);
                        }
                    }
                }
            }
            i = i + 1;
        }
        proof {
            assert(list@.subrange(0, list@.len() as int) =~= list@);
        }
        store
    }

    /// Adds `p` unless a preset with its identity is already stored.
    pub fn add(&mut self, p: Preset) -> (r: bool)
        requires
            old(self).wf(),
        ensures
            final(self).wf(),
            r == !old(self).contains(p.id@),
            r ==> final(self).presets@ == old(self).presets@.push(p),
            !r ==> final(self).presets@ == old(self).presets@,
    {
        if self.position(&p.id).is_some() {
            return false;
        }
        let ghost before = self.presets@;
        self.presets.push(p);
        proof {
            assert forall|a: int, b: int|
                0 <= a < self.presets@.len() && 0 <= b < self.presets@.len() && a != b
                implies #[trigger] self.presets@[a].id@ != #[trigger] self.presets@[b].id@ by {
                if a == before.len() {
                    assert(self.presets@[b] == before[b]);
                } else if b == before.len() {
                    assert(self.presets@[a] == before[a]);
                }
            }
        }
        true
    }

    /// Replaces the stored preset that has the identity of `p` by `p`.
    pub fn update(&mut self, p: Preset) -> (r: bool)
        requires
            old(self).wf(),
        ensures
            final(self).wf(),
            r == old(self).contains(p.id@),
            r ==> exists|i: int|
                0 <= i < old(self).presets@.len() && old(self).presets@[i].id@ == p.id@
                    && final(self).presets@ == old(self).presets@.update(i, p),
            !r ==> final(self).presets@ == old(self).presets@,
    {
        match self.position(&p.id) {
            None => false,
            Some(i) => {
                let ghost before = self.presets@;
                self.presets.set(i, p);
                proof {
                    assert(self.presets@ == before.update(i as int, p));
                    assert forall|a: int, b: int|
                        0 <= a < self.presets@.len() && 0 <= b < self.presets@.len() && a != b
                        implies #[trigger] self.presets@[a].id@ != #[trigger] self.presets@[b].id@ by {
                        assert(before[a].id@ != before[b].id@);
                    }
                }
                true
            },
        }
    }

    /// Removes the preset whose identity is `id`.
    pub fn remove(&mut self, id: &String) -> (r: bool)
        requires
            old(self).wf(),
        ensures
            final(self).wf(),
            r == old(self).contains(id@),
            !final(self).contains(id@),
            r ==> exists|i: int|
                0 <= i < old(self).presets@.len() && old(self).presets@[i].id@ == id@
                    && final(self).presets@ == old(self).presets@.remove(i),
            !r ==> final(self).presets@ == old(self).presets@,
    {
        match self.position(id) {
            None => false,
            Some(i) => {
                let ghost before = self.presets@;
                self.presets.remove(i);
                proof {
                    assert(self.presets@ == before.remove(i as int));
                    assert forall|a: int, b: int|
                        0 <= a < self.presets@.len() && 0 <= b < self.presets@.len() && a != b
                        implies #[trigger] self.presets@[a].id@ != #[trigger] self.presets@[b].id@ by {
                        let a0 = if a < i { a } else { a + 1 };
                        let b0 = if b < i { b } else { b + 1 };
                        assert(self.presets@[a] == before[a0]);
                        assert(self.presets@[b] == before[b0]);
                    }
                    if has_id(self.presets@, id@) {
                        let k = choose|k: int| 0 <= k < self.presets@.len() && #[trigger] self.presets@[k].id@ == id@;
                        let k0 = if k < i { k } else { k + 1 };
                        assert(self.presets@[k] == before[k0]);
                    }
                }
                true
            },
        }
    }
}

} // verus!

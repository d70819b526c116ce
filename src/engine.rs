use vstd::prelude::*;
use crate::instance::{DragMode, OverlayInstance, clamp_i32, to_margin};
use crate::pool::{RecyclePool, Surface, acquired, blank_surface, retired};
use crate::preset::{DEFAULT_HIDE_DELAY, Preset, PresetStore};
use crate::registry::{
    ActiveRegistry,
    Entry,
    rebound,
    bound_handles,
    bound_to,
    entries_wf,
    handle_index,
    handles_unique,
    has_handle,
    unbound_entries,
};

verus! {

/// Relies on uuid's `Uuid::new_v4` for a random identity and on its
/// `Display`, which writes the hyphenated form of 36 characters.
#[verifier::external_body]
fn fresh_preset_id() -> (r: String)
    ensures
        r@.len() == 36,
{
    uuid::Uuid::new_v4().to_string()
}

/// What a save did.
#[derive(Debug, Clone, Copy, PartialEq, Eq, Structural)]
pub enum SaveOutcome {
    /// The overlay is closed.
    Stale,
    /// The overlay has no preset yet: a name must be asked for.
    NeedsName,
    /// Its preset was updated with the overlay's current state.
    Updated,
    /// Its preset is no longer stored.
    NotStored,
}

/// Why saving an overlay as a new preset was refused.
#[derive(Debug, Clone, Copy, PartialEq, Eq, Structural)]
pub enum SaveError {
    /// The overlay is closed.
    Stale,
    /// The overlay already belongs to a preset.
    AlreadySaved,
    /// The name is empty.
    EmptyName,
    /// A preset with that identity is already stored.
    DuplicateId,
}

/// The preset that saving entry `e` under identity `id` and `name` stores:
/// its configuration with the overlay's current position (saturated to
/// `i32`) and hide delay.
pub open spec fn snapshot(e: Entry, id: String, name: String) -> Preset {
    Preset {
        id,
        name,
        x: clamp_i32(e.instance.x as int),
        y: clamp_i32(e.instance.y as int),
        hide_delay: e.instance.hide_delay,
        ..e.source
    }
}

fn take_snapshot(e: &Entry, id: String, name: String) -> (r: Preset)
    ensures
        r == snapshot(*e, id, name),
{
    Preset {
        id,
        name,
        path: e.source.path.clone(),
        width: e.source.width,
        x: to_margin(e.instance.x),
        y: to_margin(e.instance.y),
        smart_hide: e.source.smart_hide,
        always_on_top: e.source.always_on_top,
        hide_delay: e.instance.hide_delay,
    }
}

/// Why a spawn was refused.
#[derive(Debug, Clone, Copy, PartialEq, Eq, Structural)]
pub enum SpawnError {
    /// No image was selected.
    NoImage,
    /// Handles or surface identities have run out.
    Exhausted,
}

/// Handles, and the identities of surfaces, are below their counters; no
/// surface is shown by two overlays, and none that is shown is in the pool.
pub open spec fn resources_ok(
    es: Seq<Entry>,
    pool: Seq<Surface>,
    next_handle: u64,
    next_surface: u64,
) -> bool {
    &&& forall|i: int| 0 <= i < es.len() ==> (#[trigger] es[i]).handle < next_handle
    &&& forall|i: int| 0 <= i < es.len() ==> (#[trigger] es[i]).instance.surface.id < next_surface
    &&& forall|k: int| 0 <= k < pool.len() ==> (#[trigger] pool[k]).id < next_surface
    &&& forall|i: int, j: int|
        0 <= i < es.len() && 0 <= j < es.len() && i != j ==> (#[trigger] es[i]).instance.surface.id
            != (#[trigger] es[j]).instance.surface.id
    &&& forall|i: int, k: int|
        0 <= i < es.len() && 0 <= k < pool.len() ==> (#[trigger] es[i]).instance.surface.id
            != (#[trigger] pool[k]).id
    &&& forall|k: int, l: int|
        0 <= k < pool.len() && 0 <= l < pool.len() && k != l ==> (#[trigger] pool[k]).id != (
        #[trigger] pool[l]).id
}

/// The entry that spawning preset `p` creates, with handle `h` on the
/// surface with identity `sid`.
pub open spec fn spawned_entry(p: Preset, saved: bool, h: u64, sid: u64, global_hide: bool) -> Entry {
    Entry {
        handle: h,
        preset_id: if saved {
            Some(p.id)
        } else {
            None
        },
        source: p,
        instance: OverlayInstance {
            x: p.x as i64,
            y: p.y as i64,
            drag: DragMode::Idle,
            smart_hide: p.smart_hide,
            parked: false,
            hide_pending: false,
            hide_delay: p.hide_delay,
            surface: Surface {
                id: sid,
                image: Some(p.path),
                size: p.width,
                margin_left: 0,
                margin_top: 0,
                on_top: p.always_on_top,
                interactive: true,
            },
        }.projected(global_hide),
    }
}

/// `s` with the overlay of the entry at `i` replaced by `inst`.
pub open spec fn with_instance(s: Seq<Entry>, i: int, inst: OverlayInstance) -> Seq<Entry> {
    s.update(i, Entry { instance: inst, ..s[i] })
}

/// `s` with every overlay told that all overlays are hidden (`true`) or
/// shown (`false`).
pub open spec fn all_global_set(s: Seq<Entry>, global_hide: bool) -> Seq<Entry> {
    Seq::new(s.len(), |k: int| Entry { instance: s[k].instance.global_set(global_hide), ..s[k] })
}

/// Blank surfaces of the entries of `s` that belong to preset `id`, in
/// order.
pub open spec fn bound_blanks(s: Seq<Entry>, id: Seq<char>) -> Seq<Surface>
    decreases s.len(),
{
    if s.len() == 0 {
        Seq::empty()
    } else if bound_to(s.last(), id) {
        bound_blanks(s.drop_last(), id).push(blank_surface(s.last().instance.surface.id))
    } else {
        bound_blanks(s.drop_last(), id)
    }
}

proof fn lemma_remove_entry(es: Seq<Entry>, pool: Seq<Surface>, nh: u64, ns: u64, i: int)
    requires
        resources_ok(es, pool, nh, ns),
        0 <= i < es.len(),
    ensures
        resources_ok(es.remove(i), pool.push(blank_surface(es[i].instance.surface.id)), nh, ns),
{
    let es2 = es.remove(i);
    let p2 = pool.push(blank_surface(es[i].instance.surface.id));
    assert forall|a: int| 0 <= a < es2.len() implies #[trigger] es2[a] == es[if a < i {
        a
    } else {
        a + 1
    }] by {}
    assert forall|k: int| 0 <= k < p2.len() implies (#[trigger] p2[k]).id < ns by {
        if k < pool.len() {
            assert(p2[k] == pool[k]);
        }
    }
    assert forall|a: int, b: int|
        0 <= a < es2.len() && 0 <= b < es2.len() && a != b implies (#[trigger] es2[a]).instance.surface.id
        != (#[trigger] es2[b]).instance.surface.id by {
        let a0 = if a < i { a } else { a + 1 };
        let b0 = if b < i { b } else { b + 1 };
        assert(es2[a] == es[a0] && es2[b] == es[b0]);
    }
    assert forall|a: int, k: int| 0 <= a < es2.len() && 0 <= k < p2.len() implies (
    #[trigger] es2[a]).instance.surface.id != (#[trigger] p2[k]).id by {
        let a0 = if a < i { a } else { a + 1 };
        assert(es2[a] == es[a0]);
        if k < pool.len() {
            assert(p2[k] == pool[k]);
        } else {
            assert(es[a0].instance.surface.id != es[i].instance.surface.id);
        }
    }
    assert forall|k: int, l: int| 0 <= k < p2.len() && 0 <= l < p2.len() && k != l implies (
    #[trigger] p2[k]).id != (#[trigger] p2[l]).id by {
        if k < pool.len() && l < pool.len() {
            assert(p2[k] == pool[k] && p2[l] == pool[l]);
        } else if k < pool.len() {
            assert(p2[k] == pool[k]);
            assert(es[i].instance.surface.id != pool[k].id);
        } else if l < pool.len() {
            assert(p2[l] == pool[l]);
            assert(es[i].instance.surface.id != pool[l].id);
        }
    }
}

proof fn lemma_remove_keeps_handles(es: Seq<Entry>, i: int, g: bool)
    requires
        entries_wf(es, g),
        0 <= i < es.len(),
    ensures
        entries_wf(es.remove(i), g),
{
    let es2 = es.remove(i);
    assert forall|a: int| 0 <= a < es2.len() implies #[trigger] es2[a] == es[if a < i {
        a
    } else {
        a + 1
    }] by {}
    assert forall|a: int, b: int| 0 <= a < es2.len() && 0 <= b < es2.len() && a != b implies #[trigger] es2[a].handle
        != #[trigger] es2[b].handle by {
        let a0 = if a < i { a } else { a + 1 };
        let b0 = if b < i { b } else { b + 1 };
        assert(es2[a] == es[a0] && es2[b] == es[b0]);
    }
}

/// Replacing entries by ones with the same handles and surfaces keeps the
/// resource bookkeeping.
proof fn lemma_same_ids(es: Seq<Entry>, es2: Seq<Entry>, pool: Seq<Surface>, nh: u64, ns: u64)
    requires
        resources_ok(es, pool, nh, ns),
        handles_unique(es),
        es.len() == es2.len(),
        forall|i: int|
            0 <= i < es.len() ==> #[trigger] es2[i].handle == es[i].handle
                && es2[i].instance.surface.id == es[i].instance.surface.id,
    ensures
        resources_ok(es2, pool, nh, ns),
        handles_unique(es2),
{
    assert forall|a: int, b: int| 0 <= a < es2.len() && 0 <= b < es2.len() && a != b implies #[trigger] es2[a].handle
        != #[trigger] es2[b].handle by {
        assert(es[a].handle != es[b].handle);
    }
    assert forall|a: int, b: int|
        0 <= a < es2.len() && 0 <= b < es2.len() && a != b implies (#[trigger] es2[a]).instance.surface.id
        != (#[trigger] es2[b]).instance.surface.id by {
        assert(es2[a].handle == es[a].handle && es2[b].handle == es[b].handle);
        assert(es[a].instance.surface.id != es[b].instance.surface.id);
    }
    assert forall|a: int, k: int| 0 <= a < es2.len() && 0 <= k < pool.len() implies (
    #[trigger] es2[a]).instance.surface.id != (#[trigger] pool[k]).id by {
        assert(es2[a].handle == es[a].handle);
        assert(es[a].instance.surface.id != pool[k].id);
    }
    assert forall|a: int| 0 <= a < es2.len() implies (#[trigger] es2[a]).handle < nh
        && es2[a].instance.surface.id < ns by {
        assert(es[a].handle < nh);
        assert(es[a].instance.surface.id < ns);
    }
}

proof fn lemma_instance_replaced(before: Engine, i: int, inst: OverlayInstance)
    requires
        before.wf(),
        0 <= i < before.registry.entries@.len(),
        inst.wf(before.global_hide),
        inst.surface.id == before.registry.entries@[i].instance.surface.id,
    ensures
        entries_wf(with_instance(before.registry.entries@, i, inst), before.global_hide),
        resources_ok(
            with_instance(before.registry.entries@, i, inst),
            before.pool.surfaces@,
            before.next_handle,
            before.next_surface,
        ),
{
    let es = before.registry.entries@;
    let es2 = with_instance(es, i, inst);
    assert forall|k: int| 0 <= k < es.len() implies #[trigger] es2[k].handle == es[k].handle
        && es2[k].instance.surface.id == es[k].instance.surface.id by {}
    lemma_same_ids(es, es2, before.pool.surfaces@, before.next_handle, before.next_surface);
    assert forall|k: int| 0 <= k < es2.len() implies (#[trigger] es2[k]).instance.wf(
        before.global_hide,
    ) by {
        if k != i {
            assert(es2[k] == es[k]);
        }
    }
}

/// The state of the whole engine, owned by the UI thread: saved presets,
/// live overlays, the surface pool and the global hide flag.
pub struct Engine {
    pub presets: PresetStore,
    pub registry: ActiveRegistry,
    pub pool: RecyclePool,
    /// All overlays are hidden.
    pub global_hide: bool,
    /// Handle of the next overlay to open.
    pub next_handle: u64,
    /// Identity of the next surface that has to be allocated.
    pub next_surface: u64,
}

impl Engine {
    pub open spec fn wf(&self) -> bool {
        &&& self.presets.wf()
        &&& self.pool.wf()
        &&& self.registry.wf(self.global_hide)
        &&& resources_ok(
            self.registry.entries@,
            self.pool.surfaces@,
            self.next_handle,
            self.next_surface,
        )
    }

    /// Everything but the live overlays is as in `other`.
    pub open spec fn same_but_registry(&self, other: Engine) -> bool {
        &&& self.presets == other.presets
        &&& self.pool == other.pool
        &&& self.global_hide == other.global_hide
        &&& self.next_handle == other.next_handle
        &&& self.next_surface == other.next_surface
    }

    /// The same state as `other`.
    pub open spec fn same_as(&self, other: Engine) -> bool {
        &&& self.registry.entries@ == other.registry.entries@
        &&& self.same_but_registry(other)
    }

    /// An engine with the presets of `loaded` (the first of each identity),
    /// no overlays and nothing hidden.
    pub fn new(loaded: Vec<Preset>) -> (r: Engine)
        ensures
            r.wf(),
            r.presets.presets@ == crate::preset::first_occurrences(loaded@),
            r.registry.entries@.len() == 0,
            r.pool.surfaces@.len() == 0,
            !r.global_hide,
    {
        Engine {
            presets: PresetStore::from_list(loaded),
            registry: ActiveRegistry::new(),
            pool: RecyclePool::new(),
            global_hide: false,
            next_handle: 0,
            next_surface: 0,
        }
    }

    /// Identity of the surface the next spawn uses: the most recently
    /// retired one, else a new one.
    pub open spec fn next_surface_id(&self) -> u64 {
        if self.pool.surfaces@.len() == 0 {
            self.next_surface
        } else {
            self.pool.surfaces@.last().id
        }
    }

    /// Opens an overlay for preset `p` on a recycled surface, or a new one
    /// when the pool is empty. With `saved` the overlay belongs to `p`;
    /// otherwise it is unsaved.
    pub fn spawn(&mut self, p: Preset, saved: bool) -> (r: Result<u64, SpawnError>)
        requires
            old(self).wf(),
        ensures
            final(self).wf(),
            r is Err <==> (old(self).next_handle == u64::MAX || (old(self).pool.surfaces@.len() == 0
                && old(self).next_surface == u64::MAX)),
            r is Err ==> r == Err::<u64, SpawnError>(SpawnError::Exhausted) && *final(self) == *old(self),
            r is Ok ==> {
                &&& r->Ok_0 == old(self).next_handle
                &&& final(self).registry.entries@ == old(self).registry.entries@.push(
                    spawned_entry(
                        p,
                        saved,
                        old(self).next_handle,
                        old(self).next_surface_id(),
                        old(self).global_hide,
                    ),
                )
                &&& final(self).pool.surfaces@ == acquired(old(self).pool.surfaces@).1
                &&& final(self).presets == old(self).presets
                &&& final(self).global_hide == old(self).global_hide
            },
    {
        if self.next_handle == u64::MAX || (self.pool.len() == 0 && self.next_surface == u64::MAX) {
            return Err(SpawnError::Exhausted);
        }
        let ghost before = *self;
        let sid = match self.pool.acquire() {
            Some(s) => s.id,
            None => {
                let id = self.next_surface;
                self.next_surface = self.next_surface + 1;
                id
            },
        };
        let handle = self.next_handle;
        self.next_handle = self.next_handle + 1;
        let surface = Surface {
            id: sid,
            image: Some(p.path.clone()),
            size: p.width,
            margin_left: 0,
            margin_top: 0,
            on_top: p.always_on_top,
            interactive: true,
        };
        let instance = OverlayInstance::new(
            p.x as i64,
            p.y as i64,
            p.smart_hide,
            p.hide_delay,
            surface,
            self.global_hide,
        );
        let preset_id = if saved {
            Some(p.id.clone())
        } else {
            None
        };
        let e = Entry { handle, preset_id, source: p, instance };
        proof {
            assert(e == spawned_entry(p, saved, before.next_handle, before.next_surface_id(), before.global_hide));
            let es = before.registry.entries@;
            let pool = before.pool.surfaces@;
            if pool.len() > 0 {
                assert(self.pool.surfaces@ == pool.drop_last());
                assert(sid == pool[pool.len() - 1].id);
                assert forall|k: int| 0 <= k < pool.len() - 1 implies #[trigger] pool[k].id != sid by {
                    assert(pool[k].id != pool[pool.len() - 1].id);
                }
            }
            assert(!has_handle(es, handle)) by {
                if has_handle(es, handle) {
                    let k = choose|k: int| 0 <= k < es.len() && #[trigger] es[k].handle == handle;
                    assert(es[k].handle < before.next_handle);
                }
            }
        }
        let ghost es = self.registry.entries@;
        self.registry.register(e);
        proof {
            let es2 = self.registry.entries@;
            let pool = before.pool.surfaces@;
            assert(es2 == es.push(e));
            assert forall|i: int| 0 <= i < es2.len() implies (#[trigger] es2[i]).instance.wf(
                self.global_hide,
            ) by {
                if i < es.len() {
                    assert(es2[i] == es[i]);
                }
            }
            assert forall|i: int| 0 <= i < es2.len() implies (#[trigger] es2[i]).handle
                < self.next_handle && es2[i].instance.surface.id < self.next_surface by {
                if i < es.len() {
                    assert(es2[i] == es[i]);
                }
            }
            let p2 = self.pool.surfaces@;
            assert forall|k: int| 0 <= k < p2.len() implies #[trigger] p2[k] == pool[k] by {}
            assert forall|i: int, j: int|
                0 <= i < es2.len() && 0 <= j < es2.len() && i != j implies (#[trigger] es2[i]).instance.surface.id
                != (#[trigger] es2[j]).instance.surface.id by {
                if i < es.len() && j < es.len() {
                    assert(es2[i] == es[i] && es2[j] == es[j]);
                } else if i < es.len() {
                    assert(es2[i] == es[i]);
                    if pool.len() > 0 {
                        assert(es[i].instance.surface.id != pool[pool.len() - 1].id);
                    }
                } else {
                    assert(es2[j] == es[j]);
                    if pool.len() > 0 {
                        assert(es[j].instance.surface.id != pool[pool.len() - 1].id);
                    }
                }
            }
            assert forall|i: int, k: int| 0 <= i < es2.len() && 0 <= k < p2.len() implies (
            #[trigger] es2[i]).instance.surface.id != (#[trigger] p2[k]).id by {
                if i < es.len() {
                    assert(es2[i] == es[i]);
                }
            }
        }
        Ok(handle)
    }

    /// Closes the overlay with handle `h`: its entry leaves the registry and
    /// its surface goes, stripped, to the pool. A stale handle is a no-op.
    pub fn close(&mut self, h: u64) -> (r: bool)
        requires
            old(self).wf(),
        ensures
            final(self).wf(),
            r == has_handle(old(self).registry.entries@, h),
            match handle_index(old(self).registry.entries@, h) {
                Some(i) => {
                    &&& final(self).registry.entries@ == old(self).registry.entries@.remove(i)
                    &&& final(self).pool.surfaces@ == retired(
                        old(self).pool.surfaces@,
                        old(self).registry.entries@[i].instance.surface,
                    )
                    &&& final(self).presets == old(self).presets
                    &&& final(self).global_hide == old(self).global_hide
                },
                None => final(self).same_as(*old(self)),
            },
    {
        let ghost before = *self;
        match self.registry.unregister(h) {
            None => false,
            Some(e) => {
                proof {
                    let i = handle_index(before.registry.entries@, h)->0;
                    lemma_remove_entry(
                        before.registry.entries@,
                        before.pool.surfaces@,
                        before.next_handle,
                        before.next_surface,
                        i,
                    );
                    lemma_remove_keeps_handles(before.registry.entries@, i, before.global_hide);
                }
                self.pool.retire(e.instance.surface);
                true
            },
        }
    }
    /// Turns move-mode of overlay `h` on or off. A stale handle is a no-op.
    pub fn set_move_mode(&mut self, h: u64, on: bool) -> (r: bool)
        requires
            old(self).wf(),
        ensures
            final(self).wf(),
            r == has_handle(old(self).registry.entries@, h),
            match handle_index(old(self).registry.entries@, h) {
                Some(i) => final(self).registry.entries@ == with_instance(
                    old(self).registry.entries@,
                    i,
                    old(self).registry.entries@[i].instance.with_move_mode(on, old(self).global_hide),
                ) && final(self).same_but_registry(*old(self)),
                None => final(self).same_as(*old(self)),
            },
    {
        let ghost before = *self;
        match self.registry.index_of(h) {
            None => false,
            Some(i) => {
                let g = self.global_hide;
                self.registry.entries[i].instance.set_move_mode(on, g);
                proof {
                    let inst = self.registry.entries@[i as int].instance;
                    assert(self.registry.entries@ =~= with_instance(before.registry.entries@, i as int, inst));
                    lemma_instance_replaced(before, i as int, inst);
                }
                true
            },
        }
    }

    /// Pointer pressed on overlay `h` at `(px, py)`. A stale handle is a no-op.
    pub fn press(&mut self, h: u64, px: i64, py: i64) -> (r: bool)
        requires
            old(self).wf(),
        ensures
            final(self).wf(),
            r == has_handle(old(self).registry.entries@, h),
            match handle_index(old(self).registry.entries@, h) {
                Some(i) => final(self).registry.entries@ == with_instance(
                    old(self).registry.entries@,
                    i,
                    old(self).registry.entries@[i].instance.pressed(px, py),
                ) && final(self).same_but_registry(*old(self)),
                None => final(self).same_as(*old(self)),
            },
    {
        let ghost before = *self;
        match self.registry.index_of(h) {
            None => false,
            Some(i) => {
                let g = self.global_hide;
                self.registry.entries[i].instance.press(px, py, g);
                proof {
                    let inst = self.registry.entries@[i as int].instance;
                    assert(self.registry.entries@ =~= with_instance(before.registry.entries@, i as int, inst));
                    lemma_instance_replaced(before, i as int, inst);
                }
                true
            },
        }
    }

    /// Pointer moved over overlay `h` to `(px, py)`. A stale handle is a no-op.
    pub fn motion(&mut self, h: u64, px: i64, py: i64) -> (r: bool)
        requires
            old(self).wf(),
        ensures
            final(self).wf(),
            r == has_handle(old(self).registry.entries@, h),
            match handle_index(old(self).registry.entries@, h) {
                Some(i) => final(self).registry.entries@ == with_instance(
                    old(self).registry.entries@,
                    i,
                    old(self).registry.entries@[i].instance.moved(px, py, old(self).global_hide),
                ) && final(self).same_but_registry(*old(self)),
                None => final(self).same_as(*old(self)),
            },
    {
        let ghost before = *self;
        match self.registry.index_of(h) {
            None => false,
            Some(i) => {
                let g = self.global_hide;
                self.registry.entries[i].instance.motion(px, py, g);
                proof {
                    let inst = self.registry.entries@[i as int].instance;
                    assert(self.registry.entries@ =~= with_instance(before.registry.entries@, i as int, inst));
                    lemma_instance_replaced(before, i as int, inst);
                }
                true
            },
        }
    }

    /// Pointer released on overlay `h`. A stale handle is a no-op.
    pub fn release(&mut self, h: u64) -> (r: bool)
        requires
            old(self).wf(),
        ensures
            final(self).wf(),
            r == has_handle(old(self).registry.entries@, h),
            match handle_index(old(self).registry.entries@, h) {
                Some(i) => final(self).registry.entries@ == with_instance(
                    old(self).registry.entries@,
                    i,
                    old(self).registry.entries@[i].instance.released(),
                ) && final(self).same_but_registry(*old(self)),
                None => final(self).same_as(*old(self)),
            },
    {
        let ghost before = *self;
        match self.registry.index_of(h) {
            None => false,
            Some(i) => {
                let g = self.global_hide;
                self.registry.entries[i].instance.release(g);
                proof {
                    let inst = self.registry.entries@[i as int].instance;
                    assert(self.registry.entries@ =~= with_instance(before.registry.entries@, i as int, inst));
                    lemma_instance_replaced(before, i as int, inst);
                }
                true
            },
        }
    }

    /// The reappear timer of overlay `h` fired. A stale handle is a no-op.
    pub fn hide_timer_fired(&mut self, h: u64) -> (r: bool)
        requires
            old(self).wf(),
        ensures
            final(self).wf(),
            r == has_handle(old(self).registry.entries@, h),
            match handle_index(old(self).registry.entries@, h) {
                Some(i) => final(self).registry.entries@ == with_instance(
                    old(self).registry.entries@,
                    i,
                    old(self).registry.entries@[i].instance.timer_fired(old(self).global_hide),
                ) && final(self).same_but_registry(*old(self)),
                None => final(self).same_as(*old(self)),
            },
    {
        let ghost before = *self;
        match self.registry.index_of(h) {
            None => false,
            Some(i) => {
                let g = self.global_hide;
                self.registry.entries[i].instance.hide_timer_fired(g);
                proof {
                    let inst = self.registry.entries@[i as int].instance;
                    assert(self.registry.entries@ =~= with_instance(before.registry.entries@, i as int, inst));
                    lemma_instance_replaced(before, i as int, inst);
                }
                true
            },
        }
    }

    /// Pointer entered overlay `h`. Returns the delay after which its
    /// reappear timer must fire when the hover parked it, else `None`; a
    /// stale handle is a no-op.
    pub fn hover_enter(&mut self, h: u64) -> (r: Option<u64>)
        requires
            old(self).wf(),
        ensures
            final(self).wf(),
            match handle_index(old(self).registry.entries@, h) {
                Some(i) => {
                    &&& final(self).registry.entries@ == with_instance(
                        old(self).registry.entries@,
                        i,
                        old(self).registry.entries@[i].instance.hovered(old(self).global_hide),
                    )
                    &&& final(self).same_but_registry(*old(self))
                    &&& r == (if old(self).registry.entries@[i].instance.hover_allowed(old(self).global_hide) {
                        Some(old(self).registry.entries@[i].instance.hide_delay)
                    } else {
                        None::<u64>
                    })
                },
                None => final(self).same_as(*old(self)) && r is None,
            },
    {
        let ghost before = *self;
        match self.registry.index_of(h) {
            None => None,
            Some(i) => {
                let g = self.global_hide;
                let r = self.registry.entries[i].instance.hover_enter(g);
                proof {
                    let inst = self.registry.entries@[i as int].instance;
                    assert(self.registry.entries@ =~= with_instance(before.registry.entries@, i as int, inst));
                    lemma_instance_replaced(before, i as int, inst);
                }
                r
            },
        }
    }

    /// Sets the hide delay of overlay `h`, independently of its preset
    /// until it is saved. A stale handle is a no-op.
    pub fn set_hide_delay(&mut self, h: u64, seconds: u64) -> (r: bool)
        requires
            old(self).wf(),
        ensures
            final(self).wf(),
            r == has_handle(old(self).registry.entries@, h),
            match handle_index(old(self).registry.entries@, h) {
                Some(i) => final(self).registry.entries@ == with_instance(
                    old(self).registry.entries@,
                    i,
                    OverlayInstance { hide_delay: seconds, ..old(self).registry.entries@[i].instance },
                ) && final(self).same_but_registry(*old(self)),
                None => final(self).same_as(*old(self)),
            },
    {
        let ghost before = *self;
        match self.registry.index_of(h) {
            None => false,
            Some(i) => {
                self.registry.entries[i].instance.hide_delay = seconds;
                proof {
                    let inst = self.registry.entries@[i as int].instance;
                    assert(self.registry.entries@ =~= with_instance(before.registry.entries@, i as int, inst));
                    lemma_instance_replaced(before, i as int, inst);
                }
                true
            },
        }
    }
    /// Hides every overlay, or shows every overlay again at its logical
    /// position, overriding their own hide timers.
    pub fn toggle_hide_all(&mut self)
        requires
            old(self).wf(),
        ensures
            final(self).wf(),
            final(self).global_hide == !old(self).global_hide,
            final(self).registry.entries@ == all_global_set(
                old(self).registry.entries@,
                !old(self).global_hide,
            ),
            final(self).presets == old(self).presets,
            final(self).pool == old(self).pool,
            final(self).next_handle == old(self).next_handle,
            final(self).next_surface == old(self).next_surface,
    {
        let ghost before = *self;
        let ghost es = self.registry.entries@;
        let g = !self.global_hide;
        self.global_hide = g;
        let mut i: usize = 0;
        while i < self.registry.entries.len()
            invariant
                i <= self.registry.entries@.len(),
                self.registry.entries@.len() == es.len(),
                es == before.registry.entries@,
                entries_wf(es, before.global_hide),
                g == !before.global_hide,
                self.global_hide == g,
                self.presets == before.presets,
                self.pool == before.pool,
                self.next_handle == before.next_handle,
                self.next_surface == before.next_surface,
                forall|k: int|
                    0 <= k < i ==> #[trigger] self.registry.entries@[k] == (Entry {
                        instance: es[k].instance.global_set(g),
                        ..es[k]
                    }),
                forall|k: int| 0 <= k < i ==> (#[trigger] self.registry.entries@[k]).instance.wf(g),
                forall|k: int|
                    i <= k < self.registry.entries@.len() ==> #[trigger] self.registry.entries@[k]
                        == es[k],
            decreases self.registry.entries@.len() - i,
        {
            proof {
                assert(es[i as int].instance.wf(before.global_hide));
            }
            self.registry.entries[i].instance.set_global_hide(g);
            i = i + 1;
        }
        proof {
            let es2 = self.registry.entries@;
            assert(es2 =~= all_global_set(es, g));
            assert forall|k: int| 0 <= k < es.len() implies #[trigger] es2[k].handle == es[k].handle
                && es2[k].instance.surface.id == es[k].instance.surface.id by {}
            lemma_same_ids(es, es2, before.pool.surfaces@, before.next_handle, before.next_surface);
        }
    }

    /// Deletes preset `id`: every live overlay of it closes (its entry
    /// leaves the registry and its surface goes to the pool) and the preset
    /// leaves the store. Returns the handles of the closed overlays.
    pub fn delete_preset(&mut self, id: &String) -> (r: Vec<u64>)
        requires
            old(self).wf(),
        ensures
            final(self).wf(),
            r@ == bound_handles(old(self).registry.entries@, id@),
            final(self).registry.entries@ == unbound_entries(old(self).registry.entries@, id@),
            final(self).pool.surfaces@ == old(self).pool.surfaces@ + bound_blanks(
                old(self).registry.entries@,
                id@,
            ),
            !final(self).presets.contains(id@),
            old(self).presets.contains(id@) ==> exists|j: int|
                0 <= j < old(self).presets.presets@.len()
                    && old(self).presets.presets@[j].id@ == id@
                    && final(self).presets.presets@ == old(self).presets.presets@.remove(j),
            !old(self).presets.contains(id@) ==> final(self).presets.presets@ == old(self).presets.presets@,
            final(self).global_hide == old(self).global_hide,
            final(self).next_handle == old(self).next_handle,
            final(self).next_surface == old(self).next_surface,
    {
        let ghost before = *self;
        let ghost total = self.registry.entries@;
        let ghost g = self.global_hide;
        let mut rest: Vec<Entry> = Vec::new();
        std::mem::swap(&mut rest, &mut self.registry.entries);
        let mut closed: Vec<u64> = Vec::new();
        let ghost mut k: int = 0;
        proof {
            assert(rest@ =~= total.subrange(0, total.len() as int));
            assert(self.registry.entries@ + rest@ =~= total);
            assert(before.pool.surfaces@ + bound_blanks(total.subrange(0, 0), id@) =~= before.pool.surfaces@);
        }
        while rest.len() > 0
            invariant
                0 <= k <= total.len(),
                k == total.len() - rest@.len(),
                total == before.registry.entries@,
                rest@ == total.subrange(k, total.len() as int),
                self.registry.entries@ == unbound_entries(total.subrange(0, k), id@),
                closed@ == bound_handles(total.subrange(0, k), id@),
                self.pool.surfaces@ == before.pool.surfaces@ + bound_blanks(total.subrange(0, k), id@),
                self.pool.wf(),
                entries_wf(self.registry.entries@ + rest@, g),
                resources_ok(self.registry.entries@ + rest@, self.pool.surfaces@, before.next_handle, before.next_surface),
                g == before.global_hide,
                self.global_hide == before.global_hide,
                self.presets == before.presets,
                self.next_handle == before.next_handle,
                self.next_surface == before.next_surface,
            decreases rest@.len(),
        {
            let ghost kept = self.registry.entries@;
            let ghost all = kept + rest@;
            let e = rest.remove(0);
            proof {
                assert(e == total[k]);
                assert(all[kept.len() as int] == e);
                assert(total.subrange(0, k + 1).drop_last() =~= total.subrange(0, k));
                assert(total.subrange(0, k + 1).last() == e);
                assert(rest@ =~= total.subrange(k + 1, total.len() as int));
            }
            let matches = match &e.preset_id {
                Some(p) => *p == *id,
                None => false,
            };
            if matches {
                closed.push(e.handle);
                proof {
                    assert(kept + rest@ =~= all.remove(kept.len() as int));
                    lemma_remove_entry(all, self.pool.surfaces@, before.next_handle, before.next_surface, kept.len() as int);
                    lemma_remove_keeps_handles(all, kept.len() as int, g);
                }
                self.pool.retire(e.instance.surface);
                proof {
                    assert(self.pool.surfaces@ =~= before.pool.surfaces@ + bound_blanks(total.subrange(0, k + 1), id@));
                }
            } else {
                self.registry.entries.push(e);
                proof {
                    assert(self.registry.entries@ + rest@ =~= all);
                }
            }
            proof {
                k = k + 1;
            }
        }
        proof {
            assert(total.subrange(0, total.len() as int) =~= total);
            assert(self.registry.entries@ + rest@ =~= self.registry.entries@);
        }
        self.presets.remove(id);
        closed
    }
    /// Saves overlay `h`. One that belongs to a preset updates that preset
    /// with its current position and hide delay; an unsaved one is left as
    /// it is, for a name to be asked (see `save_as_new`).
    pub fn save(&mut self, h: u64) -> (r: SaveOutcome)
        requires
            old(self).wf(),
        ensures
            final(self).wf(),
            final(self).registry.entries@ == old(self).registry.entries@,
            final(self).pool == old(self).pool,
            final(self).global_hide == old(self).global_hide,
            final(self).next_handle == old(self).next_handle,
            final(self).next_surface == old(self).next_surface,
            match handle_index(old(self).registry.entries@, h) {
                None => r == SaveOutcome::Stale && final(self).presets == old(self).presets,
                Some(i) => match old(self).registry.entries@[i].preset_id {
                    None => r == SaveOutcome::NeedsName && final(self).presets == old(self).presets,
                    Some(pid) => {
                        let p = snapshot(
                            old(self).registry.entries@[i],
                            pid,
                            old(self).registry.entries@[i].source.name,
                        );
                        &&& (r == SaveOutcome::Updated) == old(self).presets.contains(pid@)
                        &&& (r == SaveOutcome::NotStored) == !old(self).presets.contains(pid@)
                        &&& old(self).presets.contains(pid@) ==> exists|j: int|
                            0 <= j < old(self).presets.presets@.len()
                                && old(self).presets.presets@[j].id@ == pid@
                                && final(self).presets.presets@ == old(
                                self,
                            ).presets.presets@.update(j, p)
                        &&& !old(self).presets.contains(pid@) ==> final(self).presets.presets@
                            == old(self).presets.presets@
                    },
                },
            },
    {
        match self.registry.index_of(h) {
            None => SaveOutcome::Stale,
            Some(i) => {
                let e = &self.registry.entries[i];
                match &e.preset_id {
                    None => SaveOutcome::NeedsName,
                    Some(pid) => {
                        let p = take_snapshot(e, pid.clone(), e.source.name.clone());
                        if self.presets.update(p) {
                            SaveOutcome::Updated
                        } else {
                            SaveOutcome::NotStored
                        }
                    },
                }
            },
        }
    }

    /// Saves the unsaved overlay `h` as a new preset with identity `id` and
    /// `name`: the preset is stored, and the overlay is bound to it, once.
    pub fn save_as_new_with_id(&mut self, h: u64, name: String, id: String) -> (r: Result<
        (),
        SaveError,
    >)
        requires
            old(self).wf(),
        ensures
            final(self).wf(),
            final(self).pool == old(self).pool,
            final(self).global_hide == old(self).global_hide,
            final(self).next_handle == old(self).next_handle,
            final(self).next_surface == old(self).next_surface,
            r is Err ==> final(self).same_as(*old(self)),
            match handle_index(old(self).registry.entries@, h) {
                None => r == Err::<(), SaveError>(SaveError::Stale),
                Some(i) => {
                    let e = old(self).registry.entries@[i];
                    if e.preset_id is Some {
                        r == Err::<(), SaveError>(SaveError::AlreadySaved)
                    } else if name@.len() == 0 {
                        r == Err::<(), SaveError>(SaveError::EmptyName)
                    } else if old(self).presets.contains(id@) {
                        r == Err::<(), SaveError>(SaveError::DuplicateId)
                    } else {
                        &&& r is Ok
                        &&& final(self).presets.presets@ == old(self).presets.presets@.push(
                            snapshot(e, id, name),
                        )
                        &&& final(self).registry.entries@ == old(self).registry.entries@.update(
                            i,
                            Entry {
                                preset_id: Some(id),
                                source: Preset { id, name, ..e.source },
                                ..e
                            },
                        )
                    }
                },
            },
    {
        let ghost before = *self;
        let i = match self.registry.index_of(h) {
            None => return Err(SaveError::Stale),
            Some(i) => i,
        };
        if self.registry.entries[i].preset_id.is_some() {
            return Err(SaveError::AlreadySaved);
        }
        if name.as_str().is_empty() {
            return Err(SaveError::EmptyName);
        }
        if self.presets.position(&id).is_some() {
            return Err(SaveError::DuplicateId);
        }
        let p = take_snapshot(&self.registry.entries[i], id.clone(), name.clone());
        self.presets.add(p);
        let bound = self.registry.rebind(h, id.clone());
        proof {
            assert(bound);
            assert(self.registry.entries@ == rebound(before.registry.entries@, i as int, id));
        }
        self.registry.entries[i].source.id = id;
        self.registry.entries[i].source.name = name;
        proof {
            let es = before.registry.entries@;
            let es2 = self.registry.entries@;
            assert forall|k: int| 0 <= k < es.len() implies #[trigger] es2[k].handle == es[k].handle
                && es2[k].instance.surface.id == es[k].instance.surface.id by {
                if k != i {
                    assert(es2[k] == es[k]);
                }
            }
            lemma_same_ids(es, es2, before.pool.surfaces@, before.next_handle, before.next_surface);
            assert forall|k: int| 0 <= k < es2.len() implies (#[trigger] es2[k]).instance.wf(
                before.global_hide,
            ) by {
                assert(es2[k].instance == es[k].instance);
            }
        }
        Ok(())
    }

    /// Saves the unsaved overlay `h` as a new preset named `name` under a
    /// fresh random identity, which it returns.
    pub fn save_as_new(&mut self, h: u64, name: String) -> (r: Result<String, SaveError>)
        requires
            old(self).wf(),
        ensures
            final(self).wf(),
            final(self).pool == old(self).pool,
            final(self).global_hide == old(self).global_hide,
            r is Err ==> final(self).same_as(*old(self)),
            match handle_index(old(self).registry.entries@, h) {
                None => r == Err::<String, SaveError>(SaveError::Stale),
                Some(i) => {
                    let e = old(self).registry.entries@[i];
                    if e.preset_id is Some {
                        r == Err::<String, SaveError>(SaveError::AlreadySaved)
                    } else if name@.len() == 0 {
                        r == Err::<String, SaveError>(SaveError::EmptyName)
                    } else {
                        &&& r is Err ==> r == Err::<String, SaveError>(SaveError::DuplicateId)
                        &&& r is Ok ==> {
                            &&& !old(self).presets.contains(r->Ok_0@)
                            &&& r->Ok_0@.len() == 36
                            &&& final(self).presets.presets@ == old(self).presets.presets@.push(
                                snapshot(e, r->Ok_0, name),
                            )
                            &&& final(self).registry.entries@[i].preset_id == Some(r->Ok_0)
                        }
                    }
                },
            },
    {
        let id = fresh_preset_id();
        match self.save_as_new_with_id(h, name, id.clone()) {
            Ok(()) => Ok(id),
            Err(e) => Err(e),
        }
    }

    /// Opens an unsaved overlay from the spawn form. Without an image
    /// nothing is opened.
    pub fn spawn_new(
        &mut self,
        image: Option<String>,
        width: i32,
        x: i32,
        y: i32,
        smart_hide: bool,
        always_on_top: bool,
    ) -> (r: Result<u64, SpawnError>)
        requires
            old(self).wf(),
        ensures
            final(self).wf(),
            image is None ==> r == Err::<u64, SpawnError>(SpawnError::NoImage) && *final(self)
                == *old(self),
            image is Some ==> {
                &&& r is Err <==> (old(self).next_handle == u64::MAX || (
                old(self).pool.surfaces@.len() == 0 && old(self).next_surface == u64::MAX))
                &&& r is Err ==> r == Err::<u64, SpawnError>(SpawnError::Exhausted)
                    && *final(self) == *old(self)
                &&& r is Ok ==> {
                    let e = final(self).registry.entries@.last();
                    &&& r->Ok_0 == old(self).next_handle
                    &&& final(self).registry.entries@ == old(self).registry.entries@.push(e)
                    &&& e.preset_id is None
                    &&& e.source.path == image->0
                    &&& e.source.width == width
                    &&& e.source.smart_hide == smart_hide
                    &&& e.source.always_on_top == always_on_top
                    &&& e.source.hide_delay == DEFAULT_HIDE_DELAY
                    &&& e.instance.x == x && e.instance.y == y
                    &&& e.instance.surface.id == old(self).next_surface_id()
                    &&& final(self).pool.surfaces@ == acquired(old(self).pool.surfaces@).1
                }
            },
    {
        let path = match image {
            None => return Err(SpawnError::NoImage),
            Some(p) => p,
        };
        let p = Preset {
            id: String::new(),
            name: "New Chibi".to_string(),
            path,
            width,
            x,
            y,
            smart_hide,
            always_on_top,
            hide_delay: DEFAULT_HIDE_DELAY,
        };
        self.spawn(p, false)
    }
}

} // verus!

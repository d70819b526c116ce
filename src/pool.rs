use vstd::prelude::*;

verus! {

/// Left margin at which a retired surface waits, far outside any screen.
pub const RECYCLE_PARK_X: i32 = 30000;

/// The state of one OS-level window surface as the engine drives it.
pub struct Surface {
    /// Stable identity of the underlying window.
    pub id: u64,
    /// Image shown in the surface, if any.
    pub image: Option<String>,
    /// Edge length of the square surface, in pixels.
    pub size: i32,
    /// Left margin: the on-screen projection of the horizontal position.
    pub margin_left: i32,
    /// Top margin: the on-screen projection of the vertical position.
    pub margin_top: i32,
    /// Whether the surface sits in the overlay layer (else the bottom layer).
    pub on_top: bool,
    /// Whether drag and hover controllers are attached.
    pub interactive: bool,
}

/// A surface stripped of all content, parked off-screen.
pub open spec fn blank_surface(id: u64) -> Surface {
    Surface {
        id,
        image: None,
        size: 0,
        margin_left: RECYCLE_PARK_X,
        margin_top: 0,
        on_top: false,
        interactive: false,
    }
}

/// Pool contents after retiring `s`.
pub open spec fn retired(pool: Seq<Surface>, s: Surface) -> Seq<Surface> {
    pool.push(blank_surface(s.id))
}

/// What `acquire` hands out from `pool`, and the pool that remains.
pub open spec fn acquired(pool: Seq<Surface>) -> (Option<Surface>, Seq<Surface>) {
    if pool.len() == 0 {
        (None, pool)
    } else {
        (Some(pool.last()), pool.drop_last())
    }
}

/// Strips a surface of image, size, position and controllers, keeping its
/// identity.
pub fn strip_surface(s: Surface) -> (r: Surface)
    ensures
        r == blank_surface(s.id),
{
    Surface {
        id: s.id,
        image: None,
        size: 0,
        margin_left: RECYCLE_PARK_X,
        margin_top: 0,
        on_top: false,
        interactive: false,
    }
}

/// Retired window surfaces awaiting reuse, most recently retired last.
pub struct RecyclePool {
    pub surfaces: Vec<Surface>,
}

impl RecyclePool {
    /// Every surface in the pool is blank.
    pub open spec fn wf(&self) -> bool {
        forall|i: int|
            0 <= i < self.surfaces@.len() ==> #[trigger] self.surfaces@[i] == blank_surface(
                self.surfaces@[i].id,
            )
    }

    pub open spec fn contains_id(&self, id: u64) -> bool {
        exists|i: int| 0 <= i < self.surfaces@.len() && #[trigger] self.surfaces@[i].id == id
    }

    pub fn new() -> (r: RecyclePool)
        ensures
            r.wf(),
            r.surfaces@.len() == 0,
    {
        RecyclePool { surfaces: Vec::new() }
    }

    pub fn len(&self) -> (r: usize)
        ensures
            r == self.surfaces@.len(),
    {
        self.surfaces.len()
    }

    /// Strips `s` and parks it in the pool.
    pub fn retire(&mut self, s: Surface)
        requires
            old(self).wf(),
        ensures
            final(self).wf(),
            final(self).surfaces@ == retired(old(self).surfaces@, s),
    {
        let blank = strip_surface(s);
        self.surfaces.push(blank);
    }

    /// Takes the most recently retired surface, or `None` when a new one must
    /// be allocated.
    pub fn acquire(&mut self) -> (r: Option<Surface>)
        requires
            old(self).wf(),
        ensures
            final(self).wf(),
            (r, final(self).surfaces@) == acquired(old(self).surfaces@),
            r is Some ==> r->0 == blank_surface(r->0.id),
    {
        let r = self.surfaces.pop();
        proof {
            if r is Some {
                assert(old(self).surfaces@[old(self).surfaces@.len() - 1] == r->0);
            }
            assert(final(self).surfaces@ =~= acquired(old(self).surfaces@).1);
        }
        r
    }
}

/// A surface that is retired and then acquired again comes back with the
/// same identity and none of the image, size, position or controllers of
/// its prior use; the rest of the pool is untouched.
pub proof fn lemma_recycle_resets(pool: Seq<Surface>, s: Surface)
    ensures
        acquired(retired(pool, s)).0 == Some(blank_surface(s.id)),
        acquired(retired(pool, s)).1 == pool,
        blank_surface(s.id).image is None,
        blank_surface(s.id).size == 0,
        blank_surface(s.id).margin_left == RECYCLE_PARK_X,
        !blank_surface(s.id).interactive,
{
    assert(retired(pool, s).drop_last() =~= pool);
}

} // verus!

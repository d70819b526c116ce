use vstd::prelude::*;
use crate::pool::Surface;

verus! {

/// Left margin of an overlay hidden by hovering over it.
pub const HOVER_PARK_X: i32 = 10000;

/// Left margin of every overlay while all of them are hidden.
pub const GLOBAL_PARK_X: i32 = 20000;

/// Drag state: `Idle` with move-mode off, `Armed` with move-mode on and the
/// pointer up, `Dragging` while the pointer is pressed. A drag remembers the
/// logical position and the pointer position at the press.
#[derive(Debug, Clone, Copy, PartialEq, Eq, Structural)]
pub enum DragMode {
    Idle,
    Armed,
    Dragging { origin_x: i64, origin_y: i64, press_x: i64, press_y: i64 },
}

/// `v` saturated to the range of `i32`.
pub open spec fn clamp_i32(v: int) -> i32 {
    if v < i32::MIN {
        i32::MIN
    } else if v > i32::MAX {
        i32::MAX
    } else {
        v as i32
    }
}

/// Window margin that projects a logical coordinate on screen.
pub fn to_margin(v: i64) -> (r: i32)
    ensures
        r == clamp_i32(v as int),
{
    if v < i32::MIN as i64 {
        i32::MIN
    } else if v > i32::MAX as i64 {
        i32::MAX
    } else {
        v as i32
    }
}

/// Left margin of an overlay at logical `x`, given whether it is parked by
/// hovering and whether all overlays are hidden.
pub open spec fn projected_left(x: i64, parked: bool, global_hide: bool) -> i32 {
    if global_hide {
        GLOBAL_PARK_X
    } else if parked {
        HOVER_PARK_X
    } else {
        clamp_i32(x as int)
    }
}

/// Logical position that a drag reaches: the position at the press moved by
/// the pointer's offset from where it was pressed.
pub open spec fn drag_target(origin: i64, press: i64, pointer: i64) -> int {
    origin + (pointer - press)
}

pub open spec fn fits_i64(v: int) -> bool {
    i64::MIN <= v <= i64::MAX
}

/// One overlay on screen: its logical position (authoritative), its drag
/// and smart-hide state, and the surface that shows it.
pub struct OverlayInstance {
    pub x: i64,
    pub y: i64,
    pub drag: DragMode,
    /// Hovering hides the overlay for a while.
    pub smart_hide: bool,
    /// The projection is parked off-screen by a hover.
    pub parked: bool,
    /// A reappear timer is scheduled and has not fired yet.
    pub hide_pending: bool,
    /// Seconds a hover hides the overlay.
    pub hide_delay: u64,
    pub surface: Surface,
}

impl OverlayInstance {
    /// The surface shows the projection of the logical position, and an
    /// overlay in move-mode is never parked.
    pub open spec fn wf(&self, global_hide: bool) -> bool {
        &&& self.surface.margin_left == projected_left(self.x, self.parked, global_hide)
        &&& self.surface.margin_top == clamp_i32(self.y as int)
        &&& !(self.drag is Idle) ==> !self.parked
    }

    pub open spec fn move_mode(&self) -> bool {
        !(self.drag is Idle)
    }

    /// The same overlay with its surface margins brought in line with its
    /// logical state.
    pub open spec fn projected(self, global_hide: bool) -> OverlayInstance {
        OverlayInstance {
            surface: Surface {
                margin_left: projected_left(self.x, self.parked, global_hide),
                margin_top: clamp_i32(self.y as int),
                ..self.surface
            },
            ..self
        }
    }

    pub open spec fn with_move_mode(self, on: bool, global_hide: bool) -> OverlayInstance {
        if on {
            OverlayInstance {
                drag: if self.drag is Idle { DragMode::Armed } else { self.drag },
                parked: false,
                ..self
            }.projected(global_hide)
        } else {
            OverlayInstance { drag: DragMode::Idle, ..self }
        }
    }

    pub open spec fn pressed(self, px: i64, py: i64) -> OverlayInstance {
        if self.drag is Armed {
            OverlayInstance {
                drag: DragMode::Dragging {
                    origin_x: self.x,
                    origin_y: self.y,
                    press_x: px,
                    press_y: py,
                },
                ..self
            }
        } else {
            self
        }
    }

    pub open spec fn moved(self, px: i64, py: i64, global_hide: bool) -> OverlayInstance {
        match self.drag {
            DragMode::Dragging { origin_x, origin_y, press_x, press_y } => {
                let nx = drag_target(origin_x, press_x, px);
                let ny = drag_target(origin_y, press_y, py);
                if fits_i64(nx) && fits_i64(ny) {
                    OverlayInstance { x: nx as i64, y: ny as i64, ..self }.projected(global_hide)
                } else {
                    self
                }
            },
            _ => self,
        }
    }

    pub open spec fn released(self) -> OverlayInstance {
        if self.drag is Dragging {
            OverlayInstance { drag: DragMode::Armed, ..self }
        } else {
            self
        }
    }

    /// A hover hides the overlay only if smart-hide is on, move-mode is
    /// off, not all overlays are hidden, and it is neither parked nor
    /// waiting for a reappear timer.
    pub open spec fn hover_allowed(self, global_hide: bool) -> bool {
        &&& self.smart_hide
        &&& self.drag is Idle
        &&& !global_hide
        &&& !self.parked
        &&& !self.hide_pending
    }

    pub open spec fn hovered(self, global_hide: bool) -> OverlayInstance {
        if self.hover_allowed(global_hide) {
            OverlayInstance { parked: true, hide_pending: true, ..self }.projected(global_hide)
        } else {
            self
        }
    }

    /// The reappear timer re-checks its preconditions when it fires: it
    /// restores the overlay only if move-mode is off and not all overlays
    /// are hidden; otherwise the later change stands.
    pub open spec fn timer_fired(self, global_hide: bool) -> OverlayInstance {
        if self.drag is Idle && !global_hide {
            OverlayInstance { hide_pending: false, parked: false, ..self }.projected(global_hide)
        } else {
            OverlayInstance { hide_pending: false, ..self }
        }
    }

    /// Hiding all overlays parks every projection; showing them again
    /// restores each to its logical position.
    pub open spec fn global_set(self, global_hide: bool) -> OverlayInstance {
        if global_hide {
            self.projected(true)
        } else {
            OverlayInstance { parked: false, ..self }.projected(false)
        }
    }

    /// A fresh overlay at logical `(x, y)` on `surface`.
    pub fn new(
        x: i64,
        y: i64,
        smart_hide: bool,
        hide_delay: u64,
        surface: Surface,
        global_hide: bool,
    ) -> (r: OverlayInstance)
        ensures
            r.wf(global_hide),
            r == (OverlayInstance {
                x,
                y,
                drag: DragMode::Idle,
                smart_hide,
                parked: false,
                hide_pending: false,
                hide_delay,
                surface,
            }).projected(global_hide),
    {
        let mut r = OverlayInstance {
            x,
            y,
            drag: DragMode::Idle,
            smart_hide,
            parked: false,
            hide_pending: false,
            hide_delay,
            surface,
        };
        r.sync_projection(global_hide);
        r
    }

    fn sync_projection(&mut self, global_hide: bool)
        ensures
            *final(self) == old(self).projected(global_hide),
    {
        self.surface.margin_left = if global_hide {
            GLOBAL_PARK_X
        } else if self.parked {
            HOVER_PARK_X
        } else {
            to_margin(self.x)
        };
        self.surface.margin_top = to_margin(self.y);
    }

    pub fn is_move_mode(&self) -> (r: bool)
        ensures
            r == self.move_mode(),
    {
        match self.drag {
            DragMode::Idle => false,
            _ => true,
        }
    }

    /// Turns move-mode on (which also brings a hover-parked overlay back) or
    /// off (which ends any drag in flight).
    pub fn set_move_mode(&mut self, on: bool, global_hide: bool)
        requires
            old(self).wf(global_hide),
        ensures
            final(self).wf(global_hide),
            *final(self) == old(self).with_move_mode(on, global_hide),
    {
        if on {
            if !self.is_move_mode() {
                self.drag = DragMode::Armed;
            }
            self.parked = false;
            self.sync_projection(global_hide);
        } else {
            self.drag = DragMode::Idle;
        }
    }

    /// Pointer pressed at `(px, py)`: starts a drag if move-mode is on.
    pub fn press(&mut self, px: i64, py: i64, global_hide: bool)
        requires
            old(self).wf(global_hide),
        ensures
            final(self).wf(global_hide),
            *final(self) == old(self).pressed(px, py),
    {
        if let DragMode::Armed = self.drag {
            self.drag = DragMode::Dragging { origin_x: self.x, origin_y: self.y, press_x: px, press_y: py };
        }
    }

    /// Pointer moved to `(px, py)`: during a drag the logical position
    /// becomes the position at the press plus the pointer's offset from the
    /// press, and the surface follows at once. A target outside the range
    /// of `i64` leaves the overlay where it is.
    pub fn motion(&mut self, px: i64, py: i64, global_hide: bool)
        requires
            old(self).wf(global_hide),
        ensures
            final(self).wf(global_hide),
            *final(self) == old(self).moved(px, py, global_hide),
    {
        if let DragMode::Dragging { origin_x, origin_y, press_x, press_y } = self.drag {
            let nx: i128 = origin_x as i128 + (px as i128 - press_x as i128);
            let ny: i128 = origin_y as i128 + (py as i128 - press_y as i128);
            if i64::MIN as i128 <= nx && nx <= i64::MAX as i128 && i64::MIN as i128 <= ny
                && ny <= i64::MAX as i128 {
                self.x = nx as i64;
                self.y = ny as i64;
                self.sync_projection(global_hide);
            }
        }
    }

    /// Pointer released: ends a drag, keeping the position it reached.
    pub fn release(&mut self, global_hide: bool)
        requires
            old(self).wf(global_hide),
        ensures
            final(self).wf(global_hide),
            *final(self) == old(self).released(),
    {
        if let DragMode::Dragging { .. } = self.drag {
            self.drag = DragMode::Armed;
        }
    }

    /// Pointer entered the overlay. Where a hover may hide it, parks the
    /// projection (the logical position stays) and returns the delay after
    /// which the reappear timer must fire; otherwise changes nothing.
    pub fn hover_enter(&mut self, global_hide: bool) -> (r: Option<u64>)
        requires
            old(self).wf(global_hide),
        ensures
            final(self).wf(global_hide),
            *final(self) == old(self).hovered(global_hide),
            r == (if old(self).hover_allowed(global_hide) {
                Some(old(self).hide_delay)
            } else {
                None::<u64>
            }),
    {
        if self.smart_hide && !self.is_move_mode() && !global_hide && !self.parked
            && !self.hide_pending {
            self.parked = true;
            self.hide_pending = true;
            self.sync_projection(global_hide);
            Some(self.hide_delay)
        } else {
            None
        }
    }

    /// The reappear timer fired.
    pub fn hide_timer_fired(&mut self, global_hide: bool)
        requires
            old(self).wf(global_hide),
        ensures
            final(self).wf(global_hide),
            *final(self) == old(self).timer_fired(global_hide),
    {
        self.hide_pending = false;
        if !self.is_move_mode() && !global_hide {
            self.parked = false;
            self.sync_projection(global_hide);
        }
    }

    /// All overlays were hidden (`true`) or shown again (`false`).
    pub fn set_global_hide(&mut self, global_hide: bool)
        requires
            old(self).move_mode() ==> !old(self).parked,
        ensures
            final(self).wf(global_hide),
            *final(self) == old(self).global_set(global_hide),
    {
        if !global_hide {
            self.parked = false;
        }
        self.sync_projection(global_hide);
    }
}

/// State after the pointer moves to each point of `moves` in turn.
pub open spec fn after_motions(
    s: OverlayInstance,
    moves: Seq<(i64, i64)>,
    global_hide: bool,
) -> OverlayInstance
    decreases moves.len(),
{
    if moves.len() == 0 {
        s
    } else {
        after_motions(s, moves.drop_last(), global_hide).moved(
            moves.last().0,
            moves.last().1,
            global_hide,
        )
    }
}

proof fn lemma_motions_keep_drag(s: OverlayInstance, moves: Seq<(i64, i64)>, global_hide: bool)
    ensures
        after_motions(s, moves, global_hide).drag == s.drag,
    decreases moves.len(),
{
    if moves.len() > 0 {
        lemma_motions_keep_drag(s, moves.drop_last(), global_hide);
    }
}

/// A press, any number of motions and a release leave the overlay at its
/// position at the press plus the offset of the last pointer position from
/// the press position, however many motions came between, and back in
/// move-mode with no drag in flight.
pub proof fn lemma_drag_follows_pointer(
    s: OverlayInstance,
    global_hide: bool,
    press_x: i64,
    press_y: i64,
    moves: Seq<(i64, i64)>,
)
    requires
        s.wf(global_hide),
        s.drag is Armed,
        moves.len() > 0,
        fits_i64(drag_target(s.x, press_x, moves.last().0)),
        fits_i64(drag_target(s.y, press_y, moves.last().1)),
    ensures
        ({
            let end = after_motions(s.pressed(press_x, press_y), moves, global_hide).released();
            &&& end.x == s.x + (moves.last().0 - press_x)
            &&& end.y == s.y + (moves.last().1 - press_y)
            &&& end.drag is Armed
        }),
{
    let d = s.pressed(press_x, press_y);
    lemma_motions_keep_drag(d, moves.drop_last(), global_hide);
}

/// State, and the number of reappear timers scheduled, after `n` hover-enter
/// events in a row.
pub open spec fn hover_repeated(s: OverlayInstance, n: nat, global_hide: bool) -> (
    OverlayInstance,
    nat,
)
    decreases n,
{
    if n == 0 {
        (s, 0)
    } else {
        let (t, c) = hover_repeated(s, (n - 1) as nat, global_hide);
        (t.hovered(global_hide), c + if t.hover_allowed(global_hide) {
            1nat
        } else {
            0nat
        })
    }
}

/// Any run of hover-enter events schedules at most one reappear timer, and
/// none when the overlay is already parked: the run ends where its first
/// event left the overlay.
pub proof fn lemma_hover_schedules_once(s: OverlayInstance, n: nat, global_hide: bool)
    requires
        s.wf(global_hide),
        n >= 1,
    ensures
        hover_repeated(s, n, global_hide).0 == s.hovered(global_hide),
        hover_repeated(s, n, global_hide).1 == (if s.hover_allowed(global_hide) {
            1nat
        } else {
            0nat
        }),
        s.parked ==> hover_repeated(s, n, global_hide).1 == 0,
    decreases n,
{
    assert(hover_repeated(s, 0, global_hide) == (s, 0nat));
    let t = s.hovered(global_hide);
    assert(!t.hover_allowed(global_hide));
    assert(t.hovered(global_hide) == t);
    if n > 1 {
        lemma_hover_schedules_once(s, (n - 1) as nat, global_hide);
    }
}

/// Hiding all overlays while a hover's reappear timer is pending and then
/// showing them again puts the overlay back at its logical position from
/// before the hover, whether the stale timer fires before the overlays are
/// shown again or after.
pub proof fn lemma_global_hide_overrides_timer(s: OverlayInstance)
    requires
        s.wf(false),
        s.hover_allowed(false),
    ensures
        ({
            let shown = s.hovered(false).global_set(true).global_set(false);
            &&& shown.x == s.x && shown.y == s.y
            &&& shown.surface.margin_left == clamp_i32(s.x as int)
            &&& shown.surface.margin_top == clamp_i32(s.y as int)
            &&& shown.timer_fired(false).x == s.x
            &&& shown.timer_fired(false).surface.margin_left == clamp_i32(s.x as int)
        }),
        ({
            let shown = s.hovered(false).global_set(true).timer_fired(true).global_set(false);
            &&& shown.x == s.x && shown.y == s.y
            &&& shown.surface.margin_left == clamp_i32(s.x as int)
            &&& !shown.hide_pending
        }),
{
}

} // verus!

//! What is under a point of the screen.

use crate::objects::{
    self, region_contains, saturating_difference, saturating_sum, ResizeEdges, EDGE_BOTTOM,
    EDGE_LEFT, EDGE_RIGHT, EDGE_TOP,
};
use crate::positioner::{self, half};
use crate::protocol::xdg_popup;
use crate::shared::OutputView;
use crate::state::{CompositorState, State};
use crate::tree::surface_global_position;
use crate::wire::fixed_to_i32;
use crate::workspace::{append_keys, ClientObjectId, WorkspacesView};
use vstd::prelude::*;

verus! {

/// Result of a hit test: which toplevel was hit, and which specific surface
/// (possibly a subsurface) the pointer is actually over.
#[derive(Debug, Clone, Copy, PartialEq, Eq)]
pub struct HitResult {
    /// The toplevel surface key (in its workspace's stack) - used for stacking/keyboard focus.
    pub toplevel: ClientObjectId,
    /// The specific surface under the pointer (could be a subsurface) - used for pointer events.
    pub surface: ClientObjectId,
    /// Global x position of the specific surface, for computing local coordinates.
    pub surface_x: i32,
    /// Global y position of the specific surface, for computing local coordinates.
    pub surface_y: i32,
}

/// A quotient rounded toward zero.
pub open spec fn truncated(v: int, by: int) -> int {
    if v >= 0 {
        v / by
    } else {
        -((-v) / by)
    }
}

/// The windows on some outputs that the user can see, bottom to top.
pub open spec fn seen_on(workspaces: WorkspacesView, outputs: Seq<OutputView>) -> Seq<ClientObjectId>
    decreases outputs.len(),
{
    if outputs.len() == 0 {
        Seq::empty()
    } else {
        seen_on(workspaces, outputs.drop_last()) + workspaces.visible_stack(outputs.last().id)
    }
}

impl State {
    /// How large a surface is to the pointer.
    pub open spec fn dimensions_of(self, key: ClientObjectId) -> (i32, i32) {
        if !self.surfaces.contains_key(key) {
            (0, 0)
        } else {
            let scale: int = if self.surfaces[key].buffer_scale > 1 {
                self.surfaces[key].buffer_scale as int
            } else {
                1
            };
            match self.viewport_of(key) {
                Some(v) if v.destination is Some => v.destination.unwrap(),
                _ => match self.buffer_of(key) {
                    Some(b) => (
                        truncated(b.width as int, scale) as i32,
                        truncated(b.height as int, scale) as i32,
                    ),
                    None => (0, 0),
                },
            }
        }
    }

    /// A point is on a surface at a place, and the surface takes input there.
    pub open spec fn hits_surface(
        self,
        key: ClientObjectId,
        x: i32,
        y: i32,
        px: i32,
        py: i32,
    ) -> bool {
        let (w, h) = self.dimensions_of(key);
        &&& self.surfaces.contains_key(key)
        &&& w != 0 && h != 0
        &&& x <= px < objects::saturated(x + w)
        &&& y <= py < objects::saturated(y + h)
        &&& match self.surfaces[key].input_region {
            Some(rects) => objects::in_region(
                rects,
                objects::saturated(px - x) as int,
                objects::saturated(py - y) as int,
            ),
            None => true,
        }
    }

    /// What a point is on of a surface at a place and everything that hangs off
    /// it, and where that is. What hangs off it is in front.
    pub open spec fn hit_tree(
        self,
        key: ClientObjectId,
        x: i32,
        y: i32,
        px: i32,
        py: i32,
        steps: nat,
    ) -> Option<(ClientObjectId, i32, i32)>
        decreases steps, 0nat,
    {
        if !self.surfaces.contains_key(key) {
            None
        } else {
            let child = if steps > 0 {
                self.hit_children(
                    key.0,
                    self.surfaces[key].children,
                    x,
                    y,
                    px,
                    py,
                    (steps - 1) as nat,
                )
            } else {
                None
            };
            if child is Some {
                child
            } else if self.hits_surface(key, x, y, px, py) {
                Some((key, x, y))
            } else {
                None
            }
        }
    }

    /// What a point is on of what hangs off a surface at a place. The last is
    /// in front.
    pub open spec fn hit_children(
        self,
        client_id: u32,
        children: Seq<u32>,
        x: i32,
        y: i32,
        px: i32,
        py: i32,
        steps: nat,
    ) -> Option<(ClientObjectId, i32, i32)>
        decreases steps, children.len(),
    {
        if children.len() == 0 {
            None
        } else {
            let key = (client_id, children.last());
            let offset = self.surfaces[key].subsurface_position;
            let hit = if self.surfaces.contains_key(key) {
                self.hit_tree(
                    key,
                    objects::saturated(x + offset.0),
                    objects::saturated(y + offset.1),
                    px,
                    py,
                    steps,
                )
            } else {
                None
            };
            if hit is Some {
                hit
            } else {
                self.hit_children(client_id, children.drop_last(), x, y, px, py, steps)
            }
        }
    }

    /// What a point is on of some windows, bottom to top.
    pub open spec fn hit_among(self, windows: Seq<ClientObjectId>, px: i32, py: i32) -> Option<
        HitResult,
    >
        decreases windows.len(),
    {
        if windows.len() == 0 {
            None
        } else {
            let key = windows.last();
            let position = self.surfaces[key].position;
            match self.hit_tree(key, position.0, position.1, px, py, self.surface_count()) {
                Some((surface, surface_x, surface_y)) => Some(
                    HitResult { toplevel: key, surface, surface_x, surface_y },
                ),
                None => self.hit_among(windows.drop_last(), px, py),
            }
        }
    }

    /// What a point of the screen is on.
    pub open spec fn hit(self, px: i32, py: i32) -> Option<HitResult> {
        self.hit_among(seen_on(self.workspaces, self.outputs), px, py)
    }

    /// What the pointer is on.
    pub open spec fn hit_here(self) -> Option<HitResult> {
        self.hit(self.pixel().0, self.pixel().1)
    }

    /// The pointer is inside a surface.
    pub open spec fn inside_surface(self, key: ClientObjectId) -> bool {
        let (x, y) = self.global_position(key);
        let (w, h) = self.dimensions_of(key);
        x <= self.pixel().0 < x + w && y <= self.pixel().1 < y + h
    }

    /// The state once every popup on top of the grab stack that the pointer is
    /// outside of has been dismissed, and whether any was.
    pub open spec fn popups_dismissed(self) -> (Self, bool)
        decreases self.grabbed_popups.len(),
    {
        if self.grabbed_popups.len() == 0 {
            (self, false)
        } else {
            let top = self.grabbed_popups.last();
            let popped = State { grabbed_popups: self.grabbed_popups.drop_last(), ..self };
            match self.surface_of_popup(top) {
                None => popped.popups_dismissed(),
                Some(surface) => if self.inside_surface(surface) {
                    (self, false)
                } else {
                    (popped.popup_done_told(top.0, top.1).popups_dismissed().0, true)
                },
            }
        }
    }

    /// The edges nearest to a point of a window.
    pub open spec fn edges_near(self, surface: ClientObjectId, px: i32, py: i32) -> ResizeEdges {
        if self.surfaces.contains_key(surface) {
            let position = self.surfaces[surface].position;
            let size = self.surface_size(surface);
            let horizontal = if px < position.0 + positioner::halved(size.0 as int) {
                EDGE_LEFT
            } else {
                EDGE_RIGHT
            };
            let vertical = if py < position.1 + positioner::halved(size.1 as int) {
                EDGE_TOP
            } else {
                EDGE_BOTTOM
            };
            ResizeEdges((horizontal + vertical) as u32)
        } else {
            ResizeEdges((EDGE_BOTTOM + EDGE_RIGHT) as u32)
        }
    }
}

/// Divide a size by a scale, rounding toward zero.
fn scaled_down(v: i32, scale: i32) -> (r: i32)
    requires
        scale >= 1,
    ensures
        r == truncated(v as int, scale as int),
{
    if v >= 0 {
        assert(0 <= v as int / scale as int <= v) by (nonlinear_arith)
            requires
                v >= 0,
                scale >= 1,
        ;
        v / scale
    } else {
        let (m, s): (i64, i64) = (-(v as i64), scale as i64);
        assert(0 <= m as int / s as int <= m) by (nonlinear_arith)
            requires
                m >= 0,
                s >= 1,
        ;
        (-(m / s)) as i32
    }
}

/// How large a surface is to the pointer: what its viewport says, or else its
/// buffer, scaled.
pub fn surface_dimensions(state: &CompositorState, key: ClientObjectId) -> (r: (i32, i32))
    requires
        state.wf(),
    ensures
        r == state@.dimensions_of(key),
{
    let surface = match state.surfaces.get(key) {
        Some(surface) => surface,
        None => {
            return (0, 0);
        },
    };
    // Check for viewport destination override
    if let Some(id) = state.surface_viewport.get(key) {
        if let Some(viewport) = state.viewports.get((key.0, *id)) {
            if let Some(destination) = viewport.destination {
                return destination;
            }
        }
    }
    // Fall back to buffer dimensions
    let buffer_id: u32 = match surface.buffer_id {
        Some(id) => id,
        None => {
            return (0, 0);
        },
    };
    match state.buffers.get((key.0, buffer_id)) {
        Some(buffer) => {
            // The buffer is in physical pixels; hit-testing and layout work in
            // surface-local coordinates, which are `buffer_scale` times smaller.
            let scale: i32 = if surface.buffer_scale > 1 { surface.buffer_scale } else { 1 };
            (scaled_down(buffer.width, scale), scaled_down(buffer.height, scale))
        },
        None => (0, 0),
    }
}

/// Every window on screen, bottom to top.
///
/// Only the workspace showing on each output contributes: a window on a
/// workspace that is not displayed cannot be clicked. Windows are confined to
/// their own output and never straddle two, so the order between outputs
/// cannot matter - no two entries here overlap unless they share an output.
fn visible_toplevels(state: &CompositorState) -> (r: Vec<ClientObjectId>)
    requires
        state.wf(),
    ensures
        r@ == seen_on(state@.workspaces, state@.outputs),
{
    let mut keys: Vec<ClientObjectId> = Vec::new();
    let mut i: usize = 0;
    assert(state@.outputs.take(0) =~= Seq::empty());
    while i < state.outputs.len()
        invariant
            state.wf(),
            i <= state.outputs@.len(),
            keys@ == seen_on(state@.workspaces, state@.outputs.take(i as int)),
        decreases state.outputs@.len() - i,
    {
        assert(state@.outputs.take(i as int + 1).drop_last() =~= state@.outputs.take(i as int));
        assert(state@.outputs[i as int] == state.outputs@[i as int]@);
        let stack = state.workspaces.visible_stack(state.outputs[i].id);
        append_keys(&mut keys, &stack);
        i = i + 1;
    }
    assert(state@.outputs.take(i as int) =~= state@.outputs);
    keys
}

/// Hit-test the visible windows from top to bottom. Returns the toplevel and
/// the specific surface (possibly a subsurface) under the point.
pub fn hit_test(state: &CompositorState, px: i32, py: i32) -> (r: Option<HitResult>)
    requires
        state.wf(),
    ensures
        r == state@.hit(px, py),
        r matches Some(h) ==> state@.surfaces.contains_key(h.surface),
{
    let windows = visible_toplevels(state);
    let steps: usize = state.surfaces.len();
    let mut i: usize = windows.len();
    assert(windows@.take(i as int) =~= windows@);
    while i > 0
        invariant
            state.wf(),
            i <= windows@.len(),
            windows@ == seen_on(state@.workspaces, state@.outputs),
            steps == state@.surface_count(),
            state@.hit(px, py) == state@.hit_among(windows@.take(i as int), px, py),
        decreases i,
    {
        i = i - 1;
        assert(windows@.take(i as int + 1).drop_last() =~= windows@.take(i as int));
        let key = windows[i];
        if let Some(surface) = state.surfaces.get(key) {
            let (x, y): (i32, i32) = surface.position;
            if let Some((surface, surface_x, surface_y)) = hit_test_surface_tree(
                state,
                key,
                x,
                y,
                px,
                py,
                steps,
            ) {
                return Some(HitResult { toplevel: key, surface, surface_x, surface_y });
            }
        }
    }
    None
}

/// Recursively hit-test a surface and its children at the given offset.
/// Returns the specific surface key and its global offset if hit.
fn hit_test_surface_tree(
    state: &CompositorState,
    key: ClientObjectId,
    x: i32,
    y: i32,
    px: i32,
    py: i32,
    steps: usize,
) -> (r: Option<(ClientObjectId, i32, i32)>)
    requires
        state.wf(),
    ensures
        r == state@.hit_tree(key, x, y, px, py, steps as nat),
        r matches Some(h) ==> state@.surfaces.contains_key(h.0),
    decreases steps,
{
    let surface = match state.surfaces.get(key) {
        Some(surface) => surface,
        None => {
            return None;
        },
    };
    // Check children first (they render on top of the parent)
    if steps > 0 {
        let children = &surface.children;
        let ghost fewer = (steps - 1) as nat;
        let mut i: usize = children.len();
        assert(children@.take(i as int) =~= children@);
        while i > 0
            invariant
                state.wf(),
                steps > 0,
                fewer == (steps - 1) as nat,
                i <= children@.len(),
                state@.hit_children(key.0, children@, x, y, px, py, fewer)
                    == state@.hit_children(
                    key.0,
                    children@.take(i as int),
                    x,
                    y,
                    px,
                    py,
                    fewer,
                ),
                state@.surfaces.contains_key(key),
                state@.surfaces[key].children == children@,
            decreases i,
        {
            i = i - 1;
            assert(children@.take(i as int + 1).drop_last() =~= children@.take(i as int));
            let child_key = (key.0, children[i]);
            if let Some(child) = state.surfaces.get(child_key) {
                let (cx, cy): (i32, i32) = child.subsurface_position;
                let hit = hit_test_surface_tree(
                    state,
                    child_key,
                    saturating_sum(x, cx),
                    saturating_sum(y, cy),
                    px,
                    py,
                    steps - 1,
                );
                if hit.is_some() {
                    return hit;
                }
            }
        }
    }
    // Check this surface's own bounds
    let (w, h): (i32, i32) = surface_dimensions(state, key);
    if w == 0 || h == 0 {
        return None;
    }
    if px < x || py < y || px >= saturating_sum(x, w) || py >= saturating_sum(y, h) {
        return None;
    }
    // Within the surface's bounds, but the client may have narrowed which parts
    // of it accept pointer input. Clients drawing their own decorations use this
    // to let clicks fall through the drop shadow around the window.
    if let Some(region) = &surface.input_region {
        if !region_contains(
            region.as_slice(),
            saturating_difference(px, x),
            saturating_difference(py, y),
        ) {
            return None;
        }
    }
    Some((key, x, y))
}

/// Whether the pointer is inside a surface.
fn pointer_inside(state: &CompositorState, key: ClientObjectId) -> (r: bool)
    requires
        state.wf(),
    ensures
        r == state@.inside_surface(key),
{
    let (px, py): (i32, i32) = (fixed_to_i32(state.cursor_x), fixed_to_i32(state.cursor_y));
    let (x, y): (i32, i32) = surface_global_position(state, key.0, key.1);
    let (w, h): (i32, i32) = surface_dimensions(state, key);
    px >= x && py >= y && (px as i64) < x as i64 + w as i64 && (py as i64) < y as i64 + h as i64
}

/// Check if the pointer is outside the topmost grabbed popup. If so, dismiss
/// popups from the top of the grab stack until one contains the pointer (or the
/// stack is empty). Returns true if any popup was dismissed.
pub fn dismiss_popups_outside_click(state: &mut CompositorState) -> (r: bool)
    requires
        old(state).wf(),
    ensures
        final(state).wf(),
        (final(state)@, r) == old(state)@.popups_dismissed(),
{
    let mut dismissed = false;
    while state.grabbed_popups.len() > 0
        invariant
            state.wf(),
            old(state)@.popups_dismissed() == (
                state@.popups_dismissed().0,
                dismissed || state@.popups_dismissed().1,
            ),
        decreases state@.grabbed_popups.len(),
    {
        let top = state.grabbed_popups[state.grabbed_popups.len() - 1];
        let surface = match state.xdg_popups.get(top) {
            Some(popup) => state.surface_of_xdg((top.0, popup.xdg_surface_id)),
            None => None,
        };
        match surface {
            None => {
                state.grabbed_popups.truncate(state.grabbed_popups.len() - 1);
            },
            Some(surface) => {
                if pointer_inside(state, surface) {
                    // Click is inside this popup - stop dismissing
                    return dismissed;
                }
                // Click is outside - dismiss this popup
                state.grabbed_popups.truncate(state.grabbed_popups.len() - 1);
                xdg_popup::send_popup_done(state, top.0, top.1);
                dismissed = true;
            },
        }
    }
    dismissed
}

/// Which edges an Alt+drag resize should pull, from where in the window the
/// pointer sits: the nearest corner, so any part of the window is usable.
pub fn edges_for_point(state: &CompositorState, surface: ClientObjectId, px: i32, py: i32) -> (r:
    ResizeEdges)
    requires
        state.wf(),
    ensures
        r == state@.edges_near(surface, px, py),
{
    let position: (i32, i32) = match state.surfaces.get(surface) {
        Some(s) => s.position,
        None => {
            return ResizeEdges(EDGE_BOTTOM + EDGE_RIGHT);
        },
    };
    let (width, height): (i32, i32) = state.surface_size(surface);
    let horizontal: u32 = if (px as i64) < position.0 as i64 + half(width) as i64 {
        EDGE_LEFT
    } else {
        EDGE_RIGHT
    };
    let vertical: u32 = if (py as i64) < position.1 as i64 + half(height) as i64 {
        EDGE_TOP
    } else {
        EDGE_BOTTOM
    };
    ResizeEdges(horizontal + vertical)
}

/// What is hit on a tree of surfaces takes input at the point.
proof fn lemma_tree_hit(s: State, key: ClientObjectId, x: i32, y: i32, px: i32, py: i32, steps: nat)
    ensures
        s.hit_tree(key, x, y, px, py, steps) matches Some(h) ==> s.hits_surface(
            h.0,
            h.1,
            h.2,
            px,
            py,
        ),
    decreases steps, 0nat,
{
    if s.surfaces.contains_key(key) && steps > 0 {
        lemma_children_hit(s, key.0, s.surfaces[key].children, x, y, px, py, (steps - 1) as nat);
    }
}

proof fn lemma_children_hit(
    s: State,
    client_id: u32,
    children: Seq<u32>,
    x: i32,
    y: i32,
    px: i32,
    py: i32,
    steps: nat,
)
    ensures
        s.hit_children(client_id, children, x, y, px, py, steps) matches Some(h)
            ==> s.hits_surface(h.0, h.1, h.2, px, py),
    decreases steps, children.len(),
{
    if children.len() > 0 {
        let key = (client_id, children.last());
        let offset = s.surfaces[key].subsurface_position;
        if s.surfaces.contains_key(key) {
            lemma_tree_hit(
                s,
                key,
                objects::saturated(x + offset.0),
                objects::saturated(y + offset.1),
                px,
                py,
                steps,
            );
        }
        lemma_children_hit(s, client_id, children.drop_last(), x, y, px, py, steps);
    }
}

/// What the pointer is found to be on is a window the user can see or hangs off
/// one, has the point on it, and takes input there.
pub proof fn law_a_hit_takes_input(s: State, px: i32, py: i32)
    ensures
        s.hit(px, py) matches Some(h) ==> s.hits_surface(
            h.surface,
            h.surface_x,
            h.surface_y,
            px,
            py,
        ) && seen_on(s.workspaces, s.outputs).contains(h.toplevel),
{
    lemma_hit_among(s, seen_on(s.workspaces, s.outputs), px, py);
}

proof fn lemma_hit_among(s: State, windows: Seq<ClientObjectId>, px: i32, py: i32)
    ensures
        s.hit_among(windows, px, py) matches Some(h) ==> s.hits_surface(
            h.surface,
            h.surface_x,
            h.surface_y,
            px,
            py,
        ) && windows.contains(h.toplevel),
    decreases windows.len(),
{
    if windows.len() > 0 {
        let key = windows.last();
        let position = s.surfaces[key].position;
        lemma_tree_hit(s, key, position.0, position.1, px, py, s.surface_count());
        lemma_hit_among(s, windows.drop_last(), px, py);
        assert(windows[windows.len() - 1] == key);
        if s.hit_among(windows.drop_last(), px, py) is Some {
            let h = s.hit_among(windows.drop_last(), px, py).unwrap();
            if windows.drop_last().contains(h.toplevel) {
                let n = choose|n: int|
                    0 <= n < windows.drop_last().len() && windows.drop_last()[n] == h.toplevel;
                assert(windows[n] == h.toplevel);
            }
        }
    }
}

/// A window in front hides what is behind it: where the topmost of some windows
/// is hit, it is what is hit.
pub proof fn law_the_window_in_front_is_hit(
    s: State,
    windows: Seq<ClientObjectId>,
    front: ClientObjectId,
    px: i32,
    py: i32,
)
    requires
        s.hits_surface(front, s.surfaces[front].position.0, s.surfaces[front].position.1, px, py),
    ensures
        s.hit_among(windows.push(front), px, py) matches Some(h) && h.toplevel == front,
{
    assert(windows.push(front).last() == front);
}

} // verus!

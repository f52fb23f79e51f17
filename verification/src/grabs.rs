//! Taking the pointer: interactive moves and resizes.

use crate::objects::{
    self, saturate, saturating_difference, saturating_sum, GrabKind, PointerGrab, ResizeEdges,
    EDGE_BOTTOM, EDGE_LEFT, EDGE_RIGHT, EDGE_TOP,
};
use crate::protocol::{wl_pointer, xdg_surface, xdg_toplevel};
use crate::seqs;
use crate::state::{self, CompositorState, State};
use crate::tree;
use crate::windows::{self, find_output, hold_i64, output_at};
use crate::wire::{self, fixed_span, fixed_to_i32};
use crate::workspace::ClientObjectId;
use vstd::prelude::*;

verus! {

/// The narrowest an interactive resize may make a window. Enough that it can
/// still be taken hold of.
pub const MIN_WINDOW_WIDTH: i32 = 120;

/// The lowest an interactive resize may make a window.
pub const MIN_WINDOW_HEIGHT: i32 = 80;

/// A client's stated maximum narrowed by the display's, where it stated one.
pub open spec fn narrowed(client_limit: i32, display_limit: i32) -> i32 {
    if 0 < client_limit < display_limit {
        client_limit
    } else {
        display_limit
    }
}

/// The larger of two numbers.
pub open spec fn larger(a: i32, b: i32) -> i32 {
    if a >= b {
        a
    } else {
        b
    }
}

/// Where a window comes to be and how large, along one axis, when an edge of
/// it is pulled. The other edge stays where it is.
pub open spec fn pulled(
    near: bool,
    far: bool,
    position: i32,
    size: i32,
    by: int,
    least: i32,
    most: i32,
) -> (i32, i32) {
    if far {
        (position, windows::held(size + by, least as int, most as int) as i32)
    } else if near {
        let pulled = windows::held(size - by, least as int, most as int);
        (objects::saturated(position + size - pulled), pulled as i32)
    } else {
        (position, size)
    }
}

/// Pulling an edge leaves the edge across from it where it was, and the size
/// within its limits.
pub proof fn law_a_pull_keeps_the_edge_across(
    near: bool,
    far: bool,
    position: i32,
    size: i32,
    by: int,
    least: i32,
    most: i32,
)
    requires
        least <= most,
        near || far,
        !far ==> i32::MIN <= position + size - most,
        !far ==> position + size - least <= i32::MAX,
    ensures
        ({
            let (p, s) = pulled(near, far, position, size, by, least, most);
            &&& least <= s <= most
            &&& far ==> p == position
            &&& !far ==> p + s == position + size
        }),
{
}

/// Tell one pointer that it left a surface.
pub open spec fn leaving(surface: ClientObjectId) -> spec_fn(State, u32) -> State {
    |s: State, pointer: u32|
        s.pointer_left(surface.0, pointer, surface.1).pointer_framed(surface.0, pointer)
}

impl State {
    /// The state once a client's pointers have been told they left a surface.
    pub open spec fn pointers_left(self, surface: ClientObjectId) -> Self {
        state::each(self, self.pointers_of(surface.0), leaving(surface))
    }

    /// The state once no client has the pointer.
    pub open spec fn pointer_taken(self) -> Self {
        match self.pointer_surface {
            Some(surface) => State { pointer_surface: None, ..self }.pointers_left(surface),
            None => self,
        }
    }

    /// The state once a window is being moved.
    pub open spec fn move_started(self, surface: ClientObjectId) -> Self {
        match self.toplevel_for_surface(surface) {
            Some(toplevel) if self.drag is None && self.surfaces.contains_key(surface) => {
                let position = self.surfaces[surface].position;
                let s = self.pointer_taken();
                State {
                    pointer_grab: Some(
                        PointerGrab {
                            surface,
                            toplevel,
                            kind: GrabKind::Move {
                                offset_x: objects::saturated(position.0 - s.pixel().0),
                                offset_y: objects::saturated(position.1 - s.pixel().1),
                            },
                        },
                    ),
                    ..s
                }
            },
            _ => self,
        }
    }

    /// The state once a window is being resized.
    pub open spec fn resize_started(self, surface: ClientObjectId, edges: ResizeEdges) -> Self {
        let size = self.surface_size(surface);
        match self.toplevel_for_surface(surface) {
            Some(toplevel) if self.drag is None && self.surfaces.contains_key(surface) && size.0 > 0
                && size.1 > 0 => {
                let position = self.surfaces[surface].position;
                let s = self.pointer_taken();
                State {
                    pointer_grab: Some(
                        PointerGrab {
                            surface,
                            toplevel,
                            kind: GrabKind::Resize {
                                edges,
                                start_pointer: (s.cursor_x, s.cursor_y),
                                start_position: position,
                                start_size: size,
                                last_sent: size,
                            },
                        },
                    ),
                    ..s
                }
            },
            _ => self,
        }
    }

    /// The display a window is on, or as much room as there can be.
    pub open spec fn display_size(self, surface: ClientObjectId) -> (i32, i32) {
        match self.workspaces.output_of(surface) {
            Some(id) => match self.output(id) {
                Some(o) => (o.width, o.height),
                None => (i32::MAX, i32::MAX),
            },
            None => (i32::MAX, i32::MAX),
        }
    }

    /// The least and the most an interactive resize may make of a window.
    pub open spec fn resize_limits(self, surface: ClientObjectId) -> ((i32, i32), (i32, i32)) {
        let display = self.display_size(surface);
        let (client_min, client_max) = self.size_limits(surface);
        let min = (
            larger(MIN_WINDOW_WIDTH, client_min.0),
            larger(MIN_WINDOW_HEIGHT, client_min.1),
        );
        (
            min,
            (
                larger(narrowed(client_max.0, display.0), min.0),
                larger(narrowed(client_max.1, display.1), min.1),
            ),
        )
    }

    /// The state once a client has been asked for a size.
    pub open spec fn resize_configured(
        self,
        toplevel: ClientObjectId,
        width: i32,
        height: i32,
        resizing: bool,
    ) -> Self {
        let s = self.resize_told(toplevel, width, height, resizing);
        if s.xdg_toplevels.contains_key(toplevel) {
            s.xdg_surface_configured(toplevel.0, s.xdg_toplevels[toplevel].xdg_surface_id)
        } else {
            s
        }
    }

    /// The state with a surface, where there is such a one, somewhere else.
    pub open spec fn surface_moved(self, key: ClientObjectId, position: (i32, i32)) -> Self {
        if self.surfaces.contains_key(key) {
            self.surface_put(key, position)
        } else {
            self
        }
    }

    /// The state once the window that is being moved has followed the pointer,
    /// onto another output where that has gone.
    pub open spec fn window_dragged(
        self,
        surface: ClientObjectId,
        offset: (i32, i32),
        x: i64,
        y: i64,
    ) -> Self {
        let (px, py) = (wire::fixed_whole(x as int), wire::fixed_whole(y as int));
        let s = self.surface_moved(
            surface,
            (objects::saturated(px + offset.0), objects::saturated(py + offset.1)),
        );
        match seqs::first(s.outputs, windows::under(px as int, py as int)) {
            Some(i) => s.moved_to_output(surface, s.outputs[i].id),
            None => s,
        }
    }

    /// Where the edges of the window that is being resized come to be: its
    /// position, then its size.
    pub open spec fn stretched(
        self,
        surface: ClientObjectId,
        edges: ResizeEdges,
        position: (i32, i32),
        size: (i32, i32),
        by: (i32, i32),
    ) -> ((i32, i32), (i32, i32)) {
        let (min, max) = self.resize_limits(surface);
        let (px, width) = pulled(
            edges.has(EDGE_LEFT),
            edges.has(EDGE_RIGHT),
            position.0,
            size.0,
            by.0 as int,
            min.0,
            max.0,
        );
        let (py, height) = pulled(
            edges.has(EDGE_TOP),
            edges.has(EDGE_BOTTOM),
            position.1,
            size.1,
            by.1 as int,
            min.1,
            max.1,
        );
        ((px, py), (width, height))
    }

    /// The state once the client whose window is being resized has been asked
    /// for a size, unless that is what it was last asked for.
    pub open spec fn size_asked(self, size: (i32, i32)) -> Self {
        match self.pointer_grab {
            Some(grab) => match grab.kind {
                GrabKind::Resize { edges, start_pointer, start_position, start_size, last_sent } => {
                    if size != last_sent {
                        State {
                            pointer_grab: Some(
                                PointerGrab {
                                    kind: GrabKind::Resize {
                                        edges,
                                        start_pointer,
                                        start_position,
                                        start_size,
                                        last_sent: size,
                                    },
                                    ..grab
                                },
                            ),
                            ..self
                        }.resize_configured(grab.toplevel, size.0, size.1, true)
                    } else {
                        self
                    }
                },
                GrabKind::Move { .. } => self,
            },
            None => self,
        }
    }

    /// The state once what holds the pointer has followed it.
    pub open spec fn grab_driven(self, x: i64, y: i64) -> Self {
        match self.pointer_grab {
            Some(grab) => match grab.kind {
                GrabKind::Move { offset_x, offset_y } => self.window_dragged(
                    grab.surface,
                    (offset_x, offset_y),
                    x,
                    y,
                ).dirtied(),
                GrabKind::Resize { edges, start_pointer, start_position, start_size, .. } => {
                    let (position, size) = self.stretched(
                        grab.surface,
                        edges,
                        start_position,
                        start_size,
                        (
                            wire::fixed_whole(x - start_pointer.0),
                            wire::fixed_whole(y - start_pointer.1),
                        ),
                    );
                    self.surface_moved(grab.surface, position).size_asked(size).dirtied()
                },
            },
            None => self,
        }
    }

    /// The state once nothing holds the pointer.
    pub open spec fn grab_ended(self) -> Self {
        match self.pointer_grab {
            Some(grab) => {
                let s = State { pointer_grab: None, ..self };
                match grab.kind {
                    GrabKind::Resize { last_sent, .. } => s.resize_configured(
                        grab.toplevel,
                        last_sent.0,
                        last_sent.1,
                        false,
                    ).dirtied(),
                    GrabKind::Move { .. } => s.dirtied(),
                }
            },
            None => self,
        }
    }
}

/// What an interactive resize may make of a window is some size or other,
/// never below the floor, and within what the client asked for where the
/// display has the room.
pub proof fn law_resize_limits_are_a_range(s: State, surface: ClientObjectId)
    ensures
        ({
            let (min, max) = s.resize_limits(surface);
            let (client_min, client_max) = s.size_limits(surface);
            &&& MIN_WINDOW_WIDTH <= min.0 <= max.0
            &&& MIN_WINDOW_HEIGHT <= min.1 <= max.1
            &&& client_min.0 <= min.0 && client_min.1 <= min.1
            &&& max.0 <= larger(s.display_size(surface).0, min.0)
            &&& max.1 <= larger(s.display_size(surface).1, min.1)
            &&& client_max.0 >= min.0 && client_max.0 > 0 ==> max.0 <= client_max.0
            &&& client_max.1 >= min.1 && client_max.1 > 0 ==> max.1 <= client_max.1
        }),
{
}

/// The larger of two numbers.
fn max_i32(a: i32, b: i32) -> (r: i32)
    ensures
        r == larger(a, b),
{
    if a >= b {
        a
    } else {
        b
    }
}

/// A client's stated maximum narrowed by the display's, treating zero as unset.
fn limit_or(client_limit: i32, display_limit: i32) -> (r: i32)
    ensures
        r == narrowed(client_limit, display_limit),
{
    if client_limit > 0 && client_limit < display_limit {
        client_limit
    } else {
        display_limit
    }
}

/// The size range an interactive resize of a window may produce.
///
/// Three sources, and the narrowest wins where they overlap:
///
/// - the compositor's own floor, so the window stays grabbable;
/// - the client's `set_min_size` and `set_max_size`, which say what it can
///   actually render at;
/// - the size of the output the window is on, so a drag cannot make a window
///   larger than the display showing it.
///
/// Where they contradict each other the range is widened rather than inverted,
/// because a clamp needs a floor no higher than its ceiling. A client that
/// insists on a minimum larger than the display gets it: the compositor cannot
/// make it render smaller, and configuring a size it will refuse achieves
/// nothing.
pub fn resize_limits(state: &CompositorState, surface: ClientObjectId) -> (r: (
    (i32, i32),
    (i32, i32),
))
    requires
        state.wf(),
    ensures
        r == state@.resize_limits(surface),
{
    let (display_width, display_height): (i32, i32) = match state.surface_output(surface) {
        Some(id) => match find_output(&state.outputs, id) {
            Some(i) => {
                assert(state@.outputs[i as int] == state.outputs@[i as int]@);
                let g = &state.outputs[i].geometry;
                (g.physical_width, g.physical_height)
            },
            None => (i32::MAX, i32::MAX),
        },
        None => (i32::MAX, i32::MAX),
    };
    let (client_min, client_max): ((i32, i32), (i32, i32)) = state.client_size_limits(surface);
    let min_width: i32 = max_i32(MIN_WINDOW_WIDTH, client_min.0);
    let min_height: i32 = max_i32(MIN_WINDOW_HEIGHT, client_min.1);
    // Zero means the client named no limit, so only the display applies.
    let max_width: i32 = max_i32(limit_or(client_max.0, display_width), min_width);
    let max_height: i32 = max_i32(limit_or(client_max.1, display_height), min_height);
    ((min_width, min_height), (max_width, max_height))
}

/// Pull an edge of a window along one axis. Gives its new position and size.
///
/// The origin is derived from the clamped size, so it stays pinned to the
/// anchored edge even once the drag runs out of room.
fn pull(near: bool, far: bool, position: i32, size: i32, by: i32, least: i32, most: i32) -> (r: (
    i32,
    i32,
))
    requires
        least <= most,
    ensures
        r == pulled(near, far, position, size, by as int, least, most),
{
    if far {
        let wanted: i64 = size as i64 + by as i64;
        (position, hold_i64(wanted, least as i64, most as i64) as i32)
    } else if near {
        let wanted: i64 = size as i64 - by as i64;
        let size_now: i64 = hold_i64(wanted, least as i64, most as i64);
        (saturate(position as i64 + size as i64 - size_now), size_now as i32)
    } else {
        (position, size)
    }
}

/// Put a surface somewhere else, if there still is such a one.
fn move_surface(state: &mut CompositorState, key: ClientObjectId, position: (i32, i32))
    requires
        old(state).wf(),
    ensures
        final(state).wf(),
        final(state)@ == old(state)@.surface_moved(key, position),
{
    if let Some(surface) = state.surfaces.get_mut(key) {
        surface.position = position;
    }
    assert(tree::surface_links(state@.surfaces) =~= tree::surface_links(old(state)@.surfaces));
}

/// Have the window that is being moved follow the pointer.
///
/// Dragging toward another output hands the window over rather than letting it
/// straddle: the window follows the pointer's output, and confinement then
/// pulls it wholly inside that one.
fn drag_window(
    state: &mut CompositorState,
    surface: ClientObjectId,
    offset: (i32, i32),
    x: i64,
    y: i64,
)
    requires
        old(state).wf(),
    ensures
        final(state).wf(),
        final(state)@ == old(state)@.window_dragged(surface, offset, x, y),
{
    let (px, py): (i32, i32) = (fixed_to_i32(x), fixed_to_i32(y));
    move_surface(state, surface, (saturating_sum(px, offset.0), saturating_sum(py, offset.1)));
    if let Some(i) = output_at(&state.outputs, px, py) {
        assert(state@.outputs[i as int] == state.outputs@[i as int]@);
        let id = state.outputs[i].id;
        state.move_toplevel_to_output(surface, id);
    }
}

/// Where the edges of the window that is being resized come to be.
///
/// Each edge moves independently, and the opposite edge stays put: dragging the
/// left edge changes width and origin together.
fn stretch(
    state: &CompositorState,
    surface: ClientObjectId,
    edges: ResizeEdges,
    position: (i32, i32),
    size: (i32, i32),
    by: (i32, i32),
) -> (r: ((i32, i32), (i32, i32)))
    requires
        state.wf(),
    ensures
        r == state@.stretched(surface, edges, position, size, by),
{
    let ((min_width, min_height), (max_width, max_height)): ((i32, i32), (i32, i32)) =
        resize_limits(state, surface);
    let (px, width): (i32, i32) = pull(
        edges.left(),
        edges.right(),
        position.0,
        size.0,
        by.0,
        min_width,
        max_width,
    );
    let (py, height): (i32, i32) = pull(
        edges.top(),
        edges.bottom(),
        position.1,
        size.1,
        by.1,
        min_height,
        max_height,
    );
    ((px, py), (width, height))
}

/// Ask the client whose window is being resized for a size.
///
/// The client decides its own size; all we can do is ask. Asking on every
/// motion event would flood it, so an unchanged size is silence.
fn ask_for_size(state: &mut CompositorState, size: (i32, i32))
    requires
        old(state).wf(),
    ensures
        final(state).wf(),
        final(state)@ == old(state)@.size_asked(size),
{
    if let Some(grab) = state.pointer_grab {
        if let GrabKind::Resize { edges, start_pointer, start_position, start_size, last_sent } =
            grab.kind {
            if size.0 != last_sent.0 || size.1 != last_sent.1 {
                state.pointer_grab = Some(
                    PointerGrab {
                        surface: grab.surface,
                        toplevel: grab.toplevel,
                        kind: GrabKind::Resize {
                            edges,
                            start_pointer,
                            start_position,
                            start_size,
                            last_sent: size,
                        },
                    },
                );
                configure_resizing(state, grab.toplevel, size.0, size.1, true);
            }
        }
    }
}

/// Drive the active grab from a pointer position. Returns false if there is none.
pub fn update_grab(state: &mut CompositorState, x: i64, y: i64) -> (r: bool)
    requires
        old(state).wf(),
    ensures
        final(state).wf(),
        final(state)@ == old(state)@.grab_driven(x, y),
        r == old(state)@.pointer_grab is Some,
{
    let grab = match state.pointer_grab {
        Some(grab) => grab,
        None => {
            return false;
        },
    };
    match grab.kind {
        GrabKind::Move { offset_x, offset_y } => {
            drag_window(state, grab.surface, (offset_x, offset_y), x, y);
        },
        GrabKind::Resize { edges, start_pointer, start_position, start_size, .. } => {
            let (position, size): ((i32, i32), (i32, i32)) = stretch(
                state,
                grab.surface,
                edges,
                start_position,
                start_size,
                (fixed_span(x, start_pointer.0), fixed_span(y, start_pointer.1)),
            );
            move_surface(state, grab.surface, position);
            ask_for_size(state, size);
        },
    }
    state.dirty = true;
    true
}

/// End the active grab, telling a resized client it has stopped resizing.
pub fn end_grab(state: &mut CompositorState)
    requires
        old(state).wf(),
    ensures
        final(state).wf(),
        final(state)@ == old(state)@.grab_ended(),
{
    let grab = match state.pointer_grab.take() {
        Some(grab) => grab,
        None => {
            return ;
        },
    };
    if let GrabKind::Resize { last_sent, .. } = grab.kind {
        configure_resizing(state, grab.toplevel, last_sent.0, last_sent.1, false);
    }
    state.dirty = true;
}

/// Ask a client for a size, marking whether the resize is still in progress.
fn configure_resizing(
    state: &mut CompositorState,
    toplevel: ClientObjectId,
    width: i32,
    height: i32,
    resizing: bool,
)
    requires
        old(state).wf(),
    ensures
        final(state).wf(),
        final(state)@ == old(state)@.resize_configured(toplevel, width, height, resizing),
{
    xdg_toplevel::send_resize_configure(state, toplevel.0, toplevel.1, width, height, resizing);
    // The size only takes effect once the client acknowledges the matching
    // xdg_surface.configure, so the two always travel together.
    let xdg_surface_id: Option<u32> = match state.xdg_toplevels.get(toplevel) {
        Some(t) => Some(t.xdg_surface_id),
        None => None,
    };
    if let Some(xdg_surface_id) = xdg_surface_id {
        xdg_surface::configure(state, toplevel.0, xdg_surface_id);
    }
}

/// Tell a client's pointers that they left a surface.
pub fn send_pointers_left(state: &mut CompositorState, surface: ClientObjectId)
    requires
        old(state).wf(),
    ensures
        final(state).wf(),
        final(state)@ == old(state)@.pointers_left(surface),
{
    let pointers = wl_pointer::pointers_of(state, surface.0);
    let ghost start = state@;
    let mut i: usize = 0;
    proof {
        state::lemma_each_ends(start, pointers@, leaving(surface));
    }
    while i < pointers.len()
        invariant
            state.wf(),
            i <= pointers@.len(),
            state@ == state::each(start, pointers@.take(i as int), leaving(surface)),
        decreases pointers@.len() - i,
    {
        proof {
            state::lemma_each_step(start, pointers@, leaving(surface), i as int);
        }
        wl_pointer::send_leave(state, surface.0, pointers[i], surface.1);
        wl_pointer::send_frame(state, surface.0, pointers[i]);
        i = i + 1;
    }
    proof {
        state::lemma_each_ends(start, pointers@, leaving(surface));
    }
}

impl CompositorState {
    /// Take the pointer away from whichever client currently has it.
    pub fn release_pointer_to_grab(&mut self)
        requires
            old(self).wf(),
        ensures
            final(self).wf(),
            final(self)@ == old(self)@.pointer_taken(),
    {
        if let Some(surface) = self.pointer_surface.take() {
            send_pointers_left(self, surface);
        }
    }

    /// Begin an interactive move of a window.
    ///
    /// Sends the client a pointer leave first: the compositor owns the pointer
    /// for the duration, and a client left believing the pointer is still
    /// inside it would keep drawing hover states it can no longer see the end
    /// of. Refused while something is being dragged: the pointer is spoken for.
    pub fn start_move_grab(&mut self, surface: ClientObjectId)
        requires
            old(self).wf(),
        ensures
            final(self).wf(),
            final(self)@ == old(self)@.move_started(surface),
    {
        if self.drag.is_some() {
            return ;
        }
        let toplevel = match self.toplevel_for_surface(surface) {
            Some(toplevel) => toplevel,
            None => {
                return ;
            },
        };
        let (x, y): (i32, i32) = match self.surfaces.get(surface) {
            Some(s) => s.position,
            None => {
                return ;
            },
        };
        self.release_pointer_to_grab();
        let offset_x: i32 = saturating_difference(x, fixed_to_i32(self.cursor_x));
        let offset_y: i32 = saturating_difference(y, fixed_to_i32(self.cursor_y));
        self.pointer_grab = Some(
            PointerGrab { surface, toplevel, kind: GrabKind::Move { offset_x, offset_y } },
        );
    }

    /// Begin an interactive resize of a window's edge or corner.
    pub fn start_resize_grab(&mut self, surface: ClientObjectId, edges: ResizeEdges)
        requires
            old(self).wf(),
        ensures
            final(self).wf(),
            final(self)@ == old(self)@.resize_started(surface, edges),
    {
        if self.drag.is_some() {
            return ;
        }
        let toplevel = match self.toplevel_for_surface(surface) {
            Some(toplevel) => toplevel,
            None => {
                return ;
            },
        };
        let position: (i32, i32) = match self.surfaces.get(surface) {
            Some(s) => s.position,
            None => {
                return ;
            },
        };
        let size: (i32, i32) = self.surface_size(surface);
        if size.0 <= 0 || size.1 <= 0 {
            return ;
        }
        self.release_pointer_to_grab();
        self.pointer_grab = Some(
            PointerGrab {
                surface,
                toplevel,
                kind: GrabKind::Resize {
                    edges,
                    start_pointer: (self.cursor_x, self.cursor_y),
                    start_position: position,
                    start_size: size,
                    last_sent: size,
                },
            },
        );
    }
}

/// A window is not grabbed while something is dragged: the two cannot both hold
/// the pointer.
pub proof fn law_a_drag_keeps_grabs_away(s: State, surface: ClientObjectId, edges: ResizeEdges)
    requires
        s.drag is Some,
    ensures
        s.move_started(surface) == s,
        s.resize_started(surface, edges) == s,
{
}

/// A grab takes the pointer away from the client that had it.
pub proof fn law_a_grab_takes_the_pointer(s: State, surface: ClientObjectId, edges: ResizeEdges)
    ensures
        s.move_started(surface) != s ==> s.move_started(surface).pointer_surface is None,
        s.resize_started(surface, edges) != s ==> s.resize_started(
            surface,
            edges,
        ).pointer_surface is None,
        s.pointer_taken().pointer_surface is None,
{
    match s.pointer_surface {
        Some(on) => {
            let inv = |a: State| a.pointer_surface is None;
            let bare = State { pointer_surface: None, ..s };
            assert forall|a: State, pointer: u32| inv(a) implies inv(
                #[trigger] leaving(on)(a, pointer),
            ) by {}
            state::lemma_each_keeps(bare, bare.pointers_of(on.0), leaving(on), inv);
        },
        None => {},
    }
}

} // verus!

//! What becomes of windows that are taken hold of, and of those that fill their
//! output.

use crate::announcements;
use crate::grabs;
use crate::heard;
use crate::objects::{GrabKind, ResizeEdges};
use crate::shared::OutputView;
use crate::state::State;
use crate::wire;
use crate::workspace::{self, ClientObjectId};
use vstd::prelude::*;

verus! {

/// A coordinate is not so far out that arithmetic on a few of them stops at the
/// end of its range.
pub open spec fn modest(v: int) -> bool {
    -0x1000_0000 <= v <= 0x1000_0000
}

/// A window that is being moved follows the pointer: as long as it is held, it is
/// as far from the pointer as it was when it was taken hold of. No other surface
/// moves.
pub proof fn law_a_moved_window_follows_the_pointer(
    s: State,
    held: State,
    surface: ClientObjectId,
    x: i64,
    y: i64,
)
    requires
        // It has been taken hold of, and nothing has moved since.
        held.pointer_grab == s.move_started(surface).pointer_grab,
        held.surfaces == s.surfaces,
        s.surfaces.contains_key(surface),
        s.toplevel_for_surface(surface) is Some,
        s.drag is None,
        modest(s.surfaces[surface].position.0 as int) && modest(
            s.surfaces[surface].position.1 as int,
        ),
        modest(s.pixel().0 as int) && modest(s.pixel().1 as int),
        modest(wire::fixed_whole(x as int) as int) && modest(wire::fixed_whole(y as int) as int),
    ensures
        ({
            let t = held.grab_driven(x, y);
            let before = s.surfaces[surface].position;
            let after = t.surfaces[surface].position;
            &&& after.0 - wire::fixed_whole(x as int) == before.0 - s.pixel().0
            &&& after.1 - wire::fixed_whole(y as int) == before.1 - s.pixel().1
            &&& forall|k: ClientObjectId|
                k != surface ==> #[trigger] t.surfaces[k] == s.surfaces[k]
            &&& t.surfaces[surface].subsurface_position
                == s.surfaces[surface].subsurface_position
            &&& t.clients == held.clients
        }),
{
    lemma_taken_pointer(s);
    assert(s.pointer_taken().pixel() == s.pixel());
    let t = held.grab_driven(x, y);
}

/// Taking the pointer from whoever has it moves nothing.
proof fn lemma_taken_pointer(s: State)
    ensures
        s.pointer_taken().cursor_x == s.cursor_x,
        s.pointer_taken().cursor_y == s.cursor_y,
        s.pointer_taken().surfaces == s.surfaces,
{
    if let Some(surface) = s.pointer_surface {
        let u = State { pointer_surface: None, ..s };
        let inv = |a: State|
            a.cursor_x == s.cursor_x && a.cursor_y == s.cursor_y && a.surfaces == s.surfaces;
        let f = grabs::leaving(surface);
        assert forall|a: State, p: u32| inv(a) implies inv(#[trigger] f(a, p)) by {}
        crate::state::lemma_each_keeps(u, u.pointers_of(surface.0), f, inv);
    }
}

/// A window that is being resized has the edges that are pulled follow the
/// pointer, as far as its limits allow, and the others stay: its right edge goes
/// as far right as the pointer, its left edge too, and its far edge across from
/// the one that is pulled is where it was.
pub proof fn law_a_pulled_edge_follows_the_pointer(
    s: State,
    surface: ClientObjectId,
    edges: ResizeEdges,
    position: (i32, i32),
    size: (i32, i32),
    by: (i32, i32),
)
    requires
        modest(position.0 as int) && modest(position.1 as int),
        0 <= size.0 <= 0x1000_0000 && 0 <= size.1 <= 0x1000_0000,
        modest(by.0 as int) && modest(by.1 as int),
        ({
            let (min, max) = s.resize_limits(surface);
            // The limits allow it.
            &&& edges.has(8) ==> min.0 <= size.0 + by.0 <= max.0
            &&& edges.has(4) && !edges.has(8) ==> min.0 <= size.0 - by.0 <= max.0
            &&& edges.has(2) ==> min.1 <= size.1 + by.1 <= max.1
            &&& edges.has(1) && !edges.has(2) ==> min.1 <= size.1 - by.1 <= max.1
        }),
    ensures
        ({
            let ((px, py), (width, height)) = s.stretched(surface, edges, position, size, by);
            // Left and right, from left to right.
            let (left, right) = (position.0 as int, position.0 + size.0);
            let (top, bottom) = (position.1 as int, position.1 + size.1);
            &&& edges.has(8) ==> px == left && px + width == right + by.0
            &&& edges.has(4) && !edges.has(8) ==> px == left + by.0 && px + width == right
            &&& !edges.has(4) && !edges.has(8) ==> px == left && px + width == right
            // Top and bottom, from top to bottom.
            &&& edges.has(2) ==> py == top && py + height == bottom + by.1
            &&& edges.has(1) && !edges.has(2) ==> py == top + by.1 && py + height == bottom
            &&& !edges.has(1) && !edges.has(2) ==> py == top && py + height == bottom
        }),
{
}

/// While a window is being resized its position is where the edges that were
/// pulled leave it, and how far they were pulled is how far the pointer has gone
/// since.
pub proof fn law_a_resized_window_is_where_its_edges_are(s: State, x: i64, y: i64)
    requires
        s.pointer_grab matches Some(g) && g.kind is Resize && s.surfaces.contains_key(g.surface),
    ensures
        ({
            let g = s.pointer_grab.unwrap();
            let t = s.grab_driven(x, y);
            g.kind matches GrabKind::Resize {
                edges,
                start_pointer,
                start_position,
                start_size,
                ..
            } && {
                let by = (
                    wire::fixed_whole(x - start_pointer.0),
                    wire::fixed_whole(y - start_pointer.1),
                );
                let (position, size) = s.stretched(
                    g.surface,
                    edges,
                    start_position,
                    start_size,
                    by,
                );
                &&& t.surfaces[g.surface].position == position
                &&& t.pointer_grab matches Some(after) && after.kind matches GrabKind::Resize {
                    last_sent,
                    start_pointer: p,
                    start_position: q,
                    start_size: z,
                    ..
                } && last_sent == size && p == start_pointer && q == start_position && z
                    == start_size
            }
        }),
{
}

impl State {
    /// A window is made of a surface, and on an output.
    pub open spec fn window_on(self, key: ClientObjectId, surface: ClientObjectId, o: OutputView) -> bool {
        &&& self.xdg_toplevels.contains_key(key)
        &&& self.surface_of_toplevel(key) == Some(surface)
        &&& self.surfaces.contains_key(surface)
        &&& self.workspaces.output_of(surface) matches Some(id) && self.output(id) == Some(o)
    }
}

/// The state before a window is told its size, once it fills its output or no
/// longer does.
proof fn lemma_state_set(
    s: State,
    key: ClientObjectId,
    surface: ClientObjectId,
    o: OutputView,
    maximized: bool,
    fullscreen: bool,
    place: (i32, i32, i32, i32),
)
    requires
        s.window_on(key, surface, o),
        s.xdg_toplevels[key].maximized != maximized || s.xdg_toplevels[key].fullscreen
            != fullscreen,
        maximized || fullscreen ==> place == (o.x, o.y, o.width, o.height),
        !maximized && !fullscreen ==> s.xdg_toplevels[key].restore == Some(place),
        heard::ready(s, key.0, 3),
        s.bounds_of(key) is None || s.xdg_toplevels[key].sent_bounds == s.bounds_of(key),
    ensures
        ({
            let t = s.window_state_set(key, maximized, fullscreen);
            let said = heard::heard(s, t, key.0);
            &&& t.surfaces[surface].position == (place.0, place.1)
            &&& said.len() == 2
            &&& said[0].object_id == key.1 && said[0].op_code == 0
            &&& heard::reads_signed(said[0], 0, place.2 as int)
            &&& heard::reads_signed(said[0], 1, place.3 as int)
            &&& t.xdg_toplevels[key].maximized == maximized
            &&& t.xdg_toplevels[key].fullscreen == fullscreen
        }),
{
    assert(s.can_set_window_state(key, maximized, fullscreen));
    let t = s.window_state_set(key, maximized, fullscreen);
    let before = s.xdg_toplevels[key];
    let filled = before.maximized || before.fullscreen;
    let fills = maximized || fullscreen;
    let position = s.surfaces[surface].position;
    let size = s.surface_size(surface);
    let restore = if !fills {
        None
    } else if filled {
        before.restore
    } else {
        Some((position.0, position.1, size.0, size.1))
    };
    let u = State {
        xdg_toplevels: s.xdg_toplevels.insert(
            key,
            crate::objects::XdgToplevelView { maximized, fullscreen, restore, ..before },
        ),
        ..s
    }.surface_put(surface, (place.0, place.1)).dirtied();
    assert(t == u.toplevel_configured(key, place.2, place.3));
    assert(u.surface_of_toplevel(key) == s.surface_of_toplevel(key));
    assert(u.bounds_of(key) == s.bounds_of(key));
    announcements::law_a_window_is_told_its_size(u, key, place.2, place.3);
    assert(u.bounds_told(key) == u);
    assert(t.surfaces == u.surfaces);
    assert(heard::heard(s, t, key.0) == heard::heard(u, t, key.0));
}

/// A window that is made to fill its output is put at the output's corner and
/// asked to be as large as the output is.
pub proof fn law_a_window_that_fills_its_output_fills_it(
    s: State,
    key: ClientObjectId,
    surface: ClientObjectId,
    o: OutputView,
    maximized: bool,
    fullscreen: bool,
)
    requires
        s.window_on(key, surface, o),
        s.xdg_toplevels[key].maximized != maximized || s.xdg_toplevels[key].fullscreen
            != fullscreen,
        maximized || fullscreen,
        heard::ready(s, key.0, 3),
        s.bounds_of(key) is None || s.xdg_toplevels[key].sent_bounds == s.bounds_of(key),
    ensures
        ({
            let t = s.window_state_set(key, maximized, fullscreen);
            let said = heard::heard(s, t, key.0);
            &&& t.surfaces[surface].position == (o.x, o.y)
            &&& said[0].object_id == key.1 && said[0].op_code == 0
            &&& heard::reads_signed(said[0], 0, o.width as int)
            &&& heard::reads_signed(said[0], 1, o.height as int)
            &&& t.xdg_toplevels[key].maximized == maximized
            &&& t.xdg_toplevels[key].fullscreen == fullscreen
        }),
{
    lemma_state_set(
        s,
        key,
        surface,
        o,
        maximized,
        fullscreen,
        (o.x, o.y, o.width, o.height),
    );
}

/// A window that no longer fills its output goes back to where it was before it
/// first did, and is asked to be as large as it was then.
pub proof fn law_a_window_goes_back_to_where_it_was(
    s: State,
    t: State,
    key: ClientObjectId,
    surface: ClientObjectId,
    o: OutputView,
    maximized: bool,
    fullscreen: bool,
)
    requires
        s.window_on(key, surface, o),
        !s.xdg_toplevels[key].maximized && !s.xdg_toplevels[key].fullscreen,
        maximized || fullscreen,
        // The window as it has been left, whatever else has happened.
        t.xdg_toplevels.contains_key(key),
        t.xdg_toplevels[key].restore == s.window_state_set(
            key,
            maximized,
            fullscreen,
        ).xdg_toplevels[key].restore,
        t.xdg_toplevels[key].maximized == maximized && t.xdg_toplevels[key].fullscreen
            == fullscreen,
        t.window_on(key, surface, o),
        heard::ready(t, key.0, 3),
        t.bounds_of(key) is None || t.xdg_toplevels[key].sent_bounds == t.bounds_of(key),
    ensures
        ({
            let u = t.window_state_set(key, false, false);
            let said = heard::heard(t, u, key.0);
            &&& u.surfaces[surface].position == s.surfaces[surface].position
            &&& said[0].object_id == key.1 && said[0].op_code == 0
            &&& heard::reads_signed(said[0], 0, s.surface_size(surface).0 as int)
            &&& heard::reads_signed(said[0], 1, s.surface_size(surface).1 as int)
        }),
{
    assert(s.can_set_window_state(key, maximized, fullscreen));
    let position = s.surfaces[surface].position;
    let size = s.surface_size(surface);
    let place = (position.0, position.1, size.0, size.1);
    assert(s.window_state_set(key, maximized, fullscreen).xdg_toplevels[key].restore == Some(place));
    lemma_state_set(t, key, surface, o, false, false, place);
}

/// Which of the two a client asks for is what changes: a window that is to be
/// maximized is, and stays fullscreen if it was, and the other way round.
pub proof fn law_a_window_fills_its_output_as_it_is_asked(
    s: State,
    r: wire::Request,
    surface: ClientObjectId,
    o: OutputView,
)
    requires
        s.window_on(r.key(), surface, o),
        r.op == 9 || r.op == 10 || (r.op == 11 && r.args.len() >= 4) || r.op == 12,
    ensures
        ({
            let before = s.xdg_toplevels[r.key()];
            let after = s.xdg_toplevel_handled(r).xdg_toplevels[r.key()];
            &&& after.maximized == if r.op == 9 {
                true
            } else if r.op == 10 {
                false
            } else {
                before.maximized
            }
            &&& after.fullscreen == if r.op == 11 {
                true
            } else if r.op == 12 {
                false
            } else {
                before.fullscreen
            }
        }),
{
    let key = r.key();
    if r.op == 9 {
        lemma_state_asked(s, key, surface, o, Some(true), None);
    } else if r.op == 10 {
        lemma_state_asked(s, key, surface, o, Some(false), None);
    } else if r.op == 11 {
        lemma_state_asked(s, key, surface, o, None, Some(true));
    } else {
        lemma_state_asked(s, key, surface, o, None, Some(false));
    }
}

/// Telling a window its size changes nothing about it but what it has been told.
proof fn lemma_configured_keeps(s: State, key: ClientObjectId, width: i32, height: i32)
    requires
        s.xdg_toplevels.contains_key(key),
    ensures
        ({
            let t = s.toplevel_configured(key, width, height);
            &&& t.xdg_toplevels.contains_key(key)
            &&& t.xdg_toplevels[key].maximized == s.xdg_toplevels[key].maximized
            &&& t.xdg_toplevels[key].fullscreen == s.xdg_toplevels[key].fullscreen
        }),
{
    let u = s.bounds_told(key);
    assert(u.xdg_toplevels[key].maximized == s.xdg_toplevels[key].maximized);
    assert(u.xdg_toplevels[key].fullscreen == s.xdg_toplevels[key].fullscreen);
}

proof fn lemma_state_asked(
    s: State,
    key: ClientObjectId,
    surface: ClientObjectId,
    o: OutputView,
    maximized: Option<bool>,
    fullscreen: Option<bool>,
)
    requires
        s.window_on(key, surface, o),
    ensures
        ({
            let before = s.xdg_toplevels[key];
            let after = s.window_state_asked(key, maximized, fullscreen).xdg_toplevels[key];
            &&& after.maximized == maximized.unwrap_or(before.maximized)
            &&& after.fullscreen == fullscreen.unwrap_or(before.fullscreen)
        }),
{
    let before = s.xdg_toplevels[key];
    let m = maximized.unwrap_or(before.maximized);
    let f = fullscreen.unwrap_or(before.fullscreen);
    if s.can_set_window_state(key, m, f) {
        let position = s.surfaces[surface].position;
        let size = s.surface_size(surface);
        let filled = before.maximized || before.fullscreen;
        let restore = if !(m || f) {
            None
        } else if filled {
            before.restore
        } else {
            Some((position.0, position.1, size.0, size.1))
        };
        let (x, y, width, height) = if m || f {
            (o.x, o.y, o.width, o.height)
        } else {
            match before.restore {
                Some(r) => r,
                None => (position.0, position.1, 0, 0),
            }
        };
        let u = State {
            xdg_toplevels: s.xdg_toplevels.insert(
                key,
                crate::objects::XdgToplevelView { maximized: m, fullscreen: f, restore, ..before },
            ),
            ..s
        }.surface_put(surface, (x, y)).dirtied();
        assert(s.window_state_set(key, m, f) == u.toplevel_configured(key, width, height));
        lemma_configured_keeps(u, key, width, height);
    } else {
        let size = s.surface_size(surface);
        lemma_configured_keeps(s, key, size.0, size.1);
    }
}

/// A new window opens on its output, no further right and no further down than
/// the middle, if that is as far out as the first window on it opens.
pub proof fn law_a_window_opens_in_the_near_half_of_its_output(
    s: State,
    key: ClientObjectId,
    id: crate::shared::OutputId,
)
    requires
        s.can_place(id),
        s.surfaces.contains_key(key),
        s.output(id) matches Some(o) && modest(o.x as int) && modest(o.y as int) && 0 <= o.width
            <= 0x1000_0000 && 0 <= o.height <= 0x1000_0000,
        s.workspaces.active(id) matches Some(v) && 0 <= v.next.0 && 0 <= v.next.1,
        2 * workspace::CASCADE_START <= s.output(id).unwrap().width,
        2 * workspace::CASCADE_START <= s.output(id).unwrap().height,
    ensures
        ({
            let o = s.output(id).unwrap();
            let p = s.toplevel_placed(key, id).surfaces[key].position;
            &&& o.x <= p.0 && 2 * (p.0 - o.x) <= o.width
            &&& o.y <= p.1 && 2 * (p.1 - o.y) <= o.height
        }),
{
}

} // verus!

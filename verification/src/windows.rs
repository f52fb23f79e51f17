//! Surfaces, windows and popups: making them, finding them, placing them on
//! the outputs, and where the pointer may go.

use crate::objects::{
    self, saturate, saturating_sum, BufferMapping, BufferView, SurfaceView, ViewportState, XdgRole,
    XdgSurfaceState,
};
use crate::positioner::{self, half};
use crate::seqs;
use crate::shared::{self, cursor_bounds, output_contains, Output, OutputId, OutputView};
use crate::state::{self, CompositorState, State, CURSOR_LIMIT};
use crate::table;
use crate::tree;
use crate::wire::{self, fixed_to_i32};
use crate::workspace::{self, ClientObjectId, WorkspacesView};
use vstd::prelude::*;

verus! {

/// How far from its parent, or from the pointer, a client may put a surface.
pub const SURFACE_OFFSET_LIMIT: i32 = 0x100_0000;

/// A number held to a range.
pub open spec fn held(v: int, low: int, high: int) -> int {
    if v < low {
        low
    } else if v > high {
        high
    } else {
        v
    }
}

/// An offset a client asks for, held to where a surface may be put.
pub open spec fn offset_held(x: int, y: int) -> (i32, i32) {
    (
        held(x, -SURFACE_OFFSET_LIMIT as int, SURFACE_OFFSET_LIMIT as int) as i32,
        held(y, -SURFACE_OFFSET_LIMIT as int, SURFACE_OFFSET_LIMIT as int) as i32,
    )
}

/// Hold a number to a range.
pub fn hold_i32(v: i32, low: i32, high: i32) -> (r: i32)
    requires
        low <= high,
    ensures
        r == held(v as int, low as int, high as int),
{
    if v < low {
        low
    } else if v > high {
        high
    } else {
        v
    }
}

/// Hold a number to a range.
pub fn hold_i64(v: i64, low: i64, high: i64) -> (r: i64)
    requires
        low <= high,
    ensures
        r == held(v as int, low as int, high as int),
{
    if v < low {
        low
    } else if v > high {
        high
    } else {
        v
    }
}

/// Add, stopping at the ends of what an `i64` can carry.
pub fn sum_held(a: i64, b: i64) -> (r: i64)
    ensures
        r == held(a + b, i64::MIN as int, i64::MAX as int),
{
    let sum: i128 = a as i128 + b as i128;
    if sum < i64::MIN as i128 {
        i64::MIN
    } else if sum > i64::MAX as i128 {
        i64::MAX
    } else {
        sum as i64
    }
}

/// Keep an offset a client asks for within bounds.
///
/// These are raw `i32`s from the client and are later added to positions, which
/// overflows if nothing bounds them.
pub fn clamp_surface_offset(x: i32, y: i32) -> (r: (i32, i32))
    ensures
        r == offset_held(x as int, y as int),
{
    (
        hold_i32(x, -SURFACE_OFFSET_LIMIT, SURFACE_OFFSET_LIMIT),
        hold_i32(y, -SURFACE_OFFSET_LIMIT, SURFACE_OFFSET_LIMIT),
    )
}

/// An `xdg_surface` that wraps a surface.
pub open spec fn wrapping(
    xdgs: Map<ClientObjectId, XdgSurfaceState>,
    surface: ClientObjectId,
) -> spec_fn(ClientObjectId) -> bool {
    |k: ClientObjectId| k.0 == surface.0 && xdgs[k].wl_surface_id == surface.1
}

/// An `xdg_surface` that makes a window of a surface.
pub open spec fn windowing(
    xdgs: Map<ClientObjectId, XdgSurfaceState>,
    surface: ClientObjectId,
) -> spec_fn(ClientObjectId) -> bool {
    |k: ClientObjectId|
        k.0 == surface.0 && xdgs[k].wl_surface_id == surface.1 && (xdgs[k].role matches Some(
            XdgRole::Toplevel(_),
        ))
}

/// The first key in order that a predicate holds of.
pub open spec fn first_key(
    keys: Set<ClientObjectId>,
    p: spec_fn(ClientObjectId) -> bool,
) -> Option<ClientObjectId> {
    match seqs::first(table::ordered(keys), p) {
        Some(i) => Some(table::ordered(keys)[i]),
        None => None,
    }
}

/// How far out the edges of what is shown of a buffer can be, in 256ths of a
/// pixel.
pub const SOURCE_LIMIT: i64 = 0x80_0000_0000;

/// How a buffer is shown, given a scale and what a viewport says.
pub open spec fn mapping_of(
    width: i32,
    height: i32,
    buffer_scale: i32,
    source: Option<(i32, i32, i32, i32)>,
    destination: Option<(i32, i32)>,
) -> Option<BufferMapping> {
    let src: (i64, i64, i64, i64) = match source {
        Some(s) => (s.0 as i64, s.1 as i64, s.2 as i64, s.3 as i64),
        None => (0, 0, (width * 256) as i64, (height * 256) as i64),
    };
    let scale: int = if buffer_scale > 1 {
        buffer_scale as int
    } else {
        1
    };
    let dest: (int, int) = match destination {
        Some(d) => (d.0 as int, d.1 as int),
        None => (
            wire::fixed_whole(src.2 as int) as int / scale,
            wire::fixed_whole(src.3 as int) as int / scale,
        ),
    };
    if width > 0 && height > 0 && dest.0 > 0 && dest.1 > 0 {
        Some(BufferMapping { src, dest_width: dest.0 as i32, dest_height: dest.1 as i32 })
    } else {
        None
    }
}

/// An output with this id.
pub open spec fn named(id: OutputId) -> spec_fn(OutputView) -> bool {
    |o: OutputView| o.id == id
}

/// An output with this point on it.
pub open spec fn under(x: int, y: int) -> spec_fn(OutputView) -> bool {
    |o: OutputView| o.contains(x, y)
}

/// The ids of some outputs.
pub open spec fn output_ids(outputs: Seq<OutputView>) -> Seq<OutputId> {
    outputs.map_values(|o: OutputView| o.id)
}

/// How far apart two points are, squared.
pub open spec fn apart(ax: int, ay: int, bx: int, by: int) -> int {
    (ax - bx) * (ax - bx) + (ay - by) * (ay - by)
}

/// The closest an output can get to a point.
pub open spec fn closest_on(o: OutputView, x: int, y: int) -> Option<(i64, i64)> {
    match shared::cursor_range(o) {
        Some((x0, y0, x1, y1)) => Some(
            (held(x, x0 as int, x1 as int) as i64, held(y, y0 as int, y1 as int) as i64),
        ),
        None => None,
    }
}

/// The closest any output can get to a point. The first one has it, where
/// several are as close.
pub open spec fn closest(outputs: Seq<OutputView>, x: int, y: int) -> Option<(i64, i64)>
    decreases outputs.len(),
{
    if outputs.len() == 0 {
        None
    } else {
        let best = closest(outputs.drop_last(), x, y);
        match (best, closest_on(outputs.last(), x, y)) {
            (Some(b), Some(p)) => if apart(p.0 as int, p.1 as int, x, y) < apart(
                b.0 as int,
                b.1 as int,
                x,
                y,
            ) {
                Some(p)
            } else {
                Some(b)
            },
            (None, p) => p,
            (b, None) => b,
        }
    }
}

/// Whether anything moved comes along with what things came to.
pub open spec fn homing() -> spec_fn((State, bool), ClientObjectId) -> (State, bool) {
    |a: (State, bool), key: ClientObjectId|
        (a.0.homed(key), a.1 || a.0.has_home())
}

/// Keep one window inside the output it is on.
pub open spec fn confining() -> spec_fn((State, bool), (OutputId, ClientObjectId)) -> (
    State,
    bool,
) {
    |a: (State, bool), w: (OutputId, ClientObjectId)|
        (a.0.window_confined(w.0, w.1), a.1 || a.0.window_confined(w.0, w.1) != a.0)
}

/// An output whose workspace on screen has a window.
pub open spec fn showing(s: State) -> spec_fn(OutputView) -> bool {
    |o: OutputView| s.workspaces.active(o.id) matches Some(w) && w.stack.len() > 0
}

impl State {
    /// The `xdg_surface` that wraps a surface.
    pub open spec fn xdg_surface_for(self, surface: ClientObjectId) -> Option<ClientObjectId> {
        first_key(self.xdg_surfaces.dom(), wrapping(self.xdg_surfaces, surface))
    }

    /// A surface is wrapped by an `xdg_surface`.
    pub open spec fn is_xdg(self, surface: ClientObjectId) -> bool {
        self.xdg_surface_for(surface) is Some
    }

    /// The window that is made of a surface.
    pub open spec fn toplevel_for_surface(self, surface: ClientObjectId) -> Option<ClientObjectId> {
        match self.xdg_surface_for(surface) {
            Some(k) => match self.xdg_surfaces[k].role {
                Some(XdgRole::Toplevel(id)) => Some((k.0, id)),
                _ => None,
            },
            None => None,
        }
    }

    /// The `xdg_surface` and the window made of a surface.
    pub open spec fn xdg_ids_for(self, surface: ClientObjectId) -> Option<(u32, u32)> {
        match first_key(self.xdg_surfaces.dom(), windowing(self.xdg_surfaces, surface)) {
            Some(k) => match self.xdg_surfaces[k].role {
                Some(XdgRole::Toplevel(id)) => Some((k.1, id)),
                _ => None,
            },
            None => None,
        }
    }

    /// The surface a window is made of.
    pub open spec fn surface_of_toplevel(self, toplevel: ClientObjectId) -> Option<ClientObjectId> {
        if self.xdg_toplevels.contains_key(toplevel) {
            self.surface_of_xdg((toplevel.0, self.xdg_toplevels[toplevel].xdg_surface_id))
        } else {
            None
        }
    }

    /// The surface an `xdg_surface` wraps.
    pub open spec fn surface_of_xdg(self, xdg: ClientObjectId) -> Option<ClientObjectId> {
        if self.xdg_surfaces.contains_key(xdg) {
            Some((xdg.0, self.xdg_surfaces[xdg].wl_surface_id))
        } else {
            None
        }
    }

    /// The size range a client has said a window accepts.
    pub open spec fn size_limits(self, surface: ClientObjectId) -> ((i32, i32), (i32, i32)) {
        match self.toplevel_for_surface(surface) {
            Some(key) if self.xdg_toplevels.contains_key(key) => (
                self.xdg_toplevels[key].min_size,
                self.xdg_toplevels[key].max_size,
            ),
            _ => ((0, 0), (0, 0)),
        }
    }

    /// The viewport on a surface.
    pub open spec fn viewport_of(self, surface: ClientObjectId) -> Option<ViewportState> {
        if self.surface_viewport.contains_key(surface) && self.viewports.contains_key(
            (surface.0, self.surface_viewport[surface]),
        ) {
            Some(self.viewports[(surface.0, self.surface_viewport[surface])])
        } else {
            None
        }
    }

    /// The buffer a surface shows.
    pub open spec fn buffer_of(self, surface: ClientObjectId) -> Option<BufferView> {
        if self.surfaces.contains_key(surface) {
            match self.surfaces[surface].buffer_id {
                Some(id) if self.buffers.contains_key((surface.0, id)) => Some(
                    self.buffers[(surface.0, id)],
                ),
                _ => None,
            }
        } else {
            None
        }
    }

    /// Which part of a surface's buffer is shown, and at what size.
    pub open spec fn surface_mapping(self, surface: ClientObjectId) -> Option<BufferMapping> {
        match self.buffer_of(surface) {
            Some(buffer) => mapping_of(
                buffer.width,
                buffer.height,
                self.surfaces[surface].buffer_scale,
                match self.viewport_of(surface) {
                    Some(v) => v.source,
                    None => None,
                },
                match self.viewport_of(surface) {
                    Some(v) => v.destination,
                    None => None,
                },
            ),
            None => None,
        }
    }

    /// How large a surface is.
    pub open spec fn surface_size(self, surface: ClientObjectId) -> (i32, i32) {
        match self.surface_mapping(surface) {
            Some(m) => (m.dest_width, m.dest_height),
            None => (0, 0),
        }
    }

    /// The output with an id.
    pub open spec fn output(self, id: OutputId) -> Option<OutputView> {
        match seqs::first(self.outputs, named(id)) {
            Some(i) => Some(self.outputs[i]),
            None => None,
        }
    }

    /// Where the pointer comes to be when it is to be at a point: as near to it
    /// as the outputs allow.
    pub open spec fn constrained(self, x: i64, y: i64) -> (i64, i64) {
        if self.outputs.len() == 0 {
            (
                held(x as int, i32::MIN * 256, i32::MAX * 256) as i64,
                held(y as int, i32::MIN * 256, i32::MAX * 256) as i64,
            )
        } else {
            match closest(self.outputs, x as int, y as int) {
                Some(p) => p,
                None => (self.cursor_x, self.cursor_y),
            }
        }
    }

    /// The state once the pointer has gone to a point, or as near to it as the
    /// outputs allow.
    pub open spec fn cursor_moved(self, x: i64, y: i64) -> Self {
        let p = self.constrained(x, y);
        State { cursor_x: p.0, cursor_y: p.1, ..self }
    }

    /// The pixel the pointer is on.
    pub open spec fn pixel(self) -> (i32, i32) {
        (wire::fixed_whole(self.cursor_x as int), wire::fixed_whole(self.cursor_y as int))
    }

    /// The output a new window opens on.
    pub open spec fn home(self) -> Option<OutputId> {
        match seqs::first(self.outputs, under(self.pixel().0 as int, self.pixel().1 as int)) {
            Some(i) => Some(self.outputs[i].id),
            None => if self.outputs.len() > 0 {
                Some(self.outputs[0].id)
            } else {
                None
            },
        }
    }

    /// The state once every output has its workspaces, and none that is gone
    /// has any.
    pub open spec fn workspaces_synced(self) -> Self {
        State { workspaces: self.workspaces.synced(output_ids(self.outputs)), ..self }
    }

    /// The topmost window on the output a new window would open on.
    pub open spec fn top_here(self) -> Option<ClientObjectId> {
        match self.home() {
            Some(id) => match self.workspaces.active(id) {
                Some(w) => workspace::top_of(w.stack),
                None => None,
            },
            None => None,
        }
    }

    /// The topmost window the user can see.
    pub open spec fn top_visible(self) -> Option<ClientObjectId> {
        if self.top_here() is Some {
            self.top_here()
        } else {
            match seqs::first(self.outputs, showing(self)) {
                Some(i) => workspace::top_of(
                    self.workspaces.active(self.outputs[i].id).unwrap().stack,
                ),
                None => None,
            }
        }
    }

    /// There is an output with a workspace to put a window on.
    pub open spec fn can_place(self, id: OutputId) -> bool {
        self.output(id) is Some && self.workspaces.active(id) is Some
    }

    /// The state once a window has been put on the workspace showing on an
    /// output, at that workspace's next cascade position.
    pub open spec fn toplevel_placed(self, key: ClientObjectId, id: OutputId) -> Self {
        if self.can_place(id) {
            let o = self.output(id).unwrap();
            let w = self.workspaces.active(id).unwrap();
            let limit_x = positioner::halved(o.width as int) as i32;
            let limit_y = positioner::halved(o.height as int) as i32;
            let slot = workspace::cascade_slot(w.next, limit_x, limit_y);
            let s = State {
                workspaces: self.workspaces.with_active(id, w.cascaded(limit_x, limit_y)).placed(
                    id,
                    key,
                ),
                ..self
            };
            if s.surfaces.contains_key(key) {
                s.surface_put(
                    key,
                    (objects::saturated(o.x + slot.0), objects::saturated(o.y + slot.1)),
                )
            } else {
                s
            }
        } else {
            self
        }
    }

    /// The state once a surface is somewhere else.
    pub open spec fn surface_put(self, key: ClientObjectId, position: (i32, i32)) -> Self {
        State {
            surfaces: self.surfaces.insert(key, SurfaceView { position, ..self.surfaces[key] }),
            ..self
        }
    }

    /// There is somewhere for a new window to open.
    pub open spec fn has_home(self) -> bool {
        self.home() matches Some(id) && self.can_place(id)
    }

    /// The state once a window has opened where it can, or is held until there
    /// is somewhere.
    pub open spec fn homed(self, key: ClientObjectId) -> Self {
        if self.has_home() {
            self.toplevel_placed(key, self.home().unwrap())
        } else {
            State { workspaces: self.workspaces.removed(key).held(key), ..self }
        }
    }

    /// The state once a window has been moved to the workspace showing on an
    /// output.
    pub open spec fn moved_to_output(self, key: ClientObjectId, id: OutputId) -> Self {
        if self.workspaces.output_of(key) == Some(id) {
            self
        } else {
            State { workspaces: self.workspaces.placed(id, key), ..self }
        }
    }

    /// The state once a window is wholly inside an output, or at its top left
    /// where it does not fit.
    pub open spec fn window_confined(self, id: OutputId, key: ClientObjectId) -> Self {
        if self.output(id) is Some && self.surfaces.contains_key(key) {
            let o = self.output(id).unwrap();
            let (width, height) = self.surface_size(key);
            let position = self.surfaces[key].position;
            let max_x = objects::saturated(o.x + o.width - width);
            let max_y = objects::saturated(o.y + o.height - height);
            self.surface_put(
                key,
                (
                    held(
                        position.0 as int,
                        o.x as int,
                        if max_x < o.x {
                            o.x as int
                        } else {
                            max_x as int
                        },
                    ) as i32,
                    held(
                        position.1 as int,
                        o.y as int,
                        if max_y < o.y {
                            o.y as int
                        } else {
                            max_y as int
                        },
                    ) as i32,
                ),
            )
        } else {
            self
        }
    }

    /// The state once every window is on an output that exists, and wholly
    /// inside it, and whether anything had to move for that.
    pub open spec fn confined(self) -> (Self, bool) {
        let moved = !self.workspaces.in_step(output_ids(self.outputs));
        let s = self.workspaces_synced();
        let unplaced = s.workspaces.unplaced;
        let s = State { workspaces: s.workspaces.unheld(), ..s };
        let (s, moved) = state::each((s, moved), unplaced, homing());
        state::each((s, moved), workspace::all_windows(s.workspaces.outputs), confining())
    }
}

/// Which output has an id.
pub fn find_output(outputs: &Vec<Output>, id: OutputId) -> (r: Option<usize>)
    ensures
        match r {
            Some(i) => i < outputs@.len() && seqs::first(
                shared::outputs_view(outputs@),
                named(id),
            ) == Some(i as int),
            None => seqs::first(shared::outputs_view(outputs@), named(id)) is None,
        },
{
    let ghost views = shared::outputs_view(outputs@);
    let mut i: usize = 0;
    while i < outputs.len()
        invariant
            i <= outputs@.len(),
            views == shared::outputs_view(outputs@),
            forall|j: int| 0 <= j < i ==> !named(id)(#[trigger] views[j]),
        decreases outputs@.len() - i,
    {
        assert(views[i as int] == outputs@[i as int]@);
        if outputs[i].id == id {
            proof {
                seqs::lemma_first(views, named(id), i as int);
            }
            return Some(i);
        }
        i = i + 1;
    }
    proof {
        seqs::lemma_first_none(views, named(id));
    }
    None
}

/// Which output a point is on.
pub fn output_at(outputs: &Vec<Output>, x: i32, y: i32) -> (r: Option<usize>)
    ensures
        match r {
            Some(i) => i < outputs@.len() && seqs::first(
                shared::outputs_view(outputs@),
                under(x as int, y as int),
            ) == Some(i as int),
            None => seqs::first(
                shared::outputs_view(outputs@),
                under(x as int, y as int),
            ) is None,
        },
{
    let ghost views = shared::outputs_view(outputs@);
    let ghost p = under(x as int, y as int);
    let mut i: usize = 0;
    while i < outputs.len()
        invariant
            i <= outputs@.len(),
            views == shared::outputs_view(outputs@),
            p == under(x as int, y as int),
            forall|j: int| 0 <= j < i ==> !p(#[trigger] views[j]),
        decreases outputs@.len() - i,
    {
        assert(views[i as int] == outputs@[i as int]@);
        if output_contains(&outputs[i], x, y) {
            proof {
                seqs::lemma_first(views, p, i as int);
            }
            return Some(i);
        }
        i = i + 1;
    }
    proof {
        seqs::lemma_first_none(views, p);
    }
    None
}

/// The distance between two coordinates, squared.
fn squared(a: i64, b: i64) -> (r: u128)
    requires
        -CURSOR_LIMIT <= a <= CURSOR_LIMIT,
    ensures
        r == (a - b) * (a - b),
        r <= 0x5000_0000_0000_0000_0000_0000_0000_0000,
{
    let d: i128 = a as i128 - b as i128;
    let m: i128 = if d < 0 { -d } else { d };
    assert(m * m == (a - b) * (a - b)) by (nonlinear_arith)
        requires
            m == a - b || m == -(a - b),
    ;
    assert(m * m <= 0x8000_0100_0000_0000 * 0x8000_0100_0000_0000) by (nonlinear_arith)
        requires
            0 <= m <= 0x8000_0100_0000_0000,
    ;
    assert(0 <= m * m) by (nonlinear_arith);
    m as u128 * m as u128
}

impl CompositorState {
    /// The `xdg_surface` that wraps a surface.
    pub fn xdg_surface_for(&self, surface: ClientObjectId) -> (r: Option<ClientObjectId>)
        requires
            self.wf(),
        ensures
            r == self@.xdg_surface_for(surface),
            r matches Some(k) ==> self@.xdg_surfaces.contains_key(k) && k.0 == surface.0,
    {
        let keys = self.xdg_surfaces.keys();
        let ghost p = wrapping(self@.xdg_surfaces, surface);
        let mut i: usize = 0;
        while i < keys.len()
            invariant
                self.wf(),
                i <= keys@.len(),
                p == wrapping(self@.xdg_surfaces, surface),
                table::lists(keys@, self@.xdg_surfaces.dom()),
                keys@ == table::ordered(self@.xdg_surfaces.dom()),
                forall|j: int| 0 <= j < i ==> !p(#[trigger] keys@[j]),
            decreases keys@.len() - i,
        {
            let k = keys[i];
            assert(keys@.contains(k));
            if let Some(xdg) = self.xdg_surfaces.get(k) {
                if k.0 == surface.0 && xdg.wl_surface_id == surface.1 {
                    proof {
                        seqs::lemma_first(keys@, p, i as int);
                    }
                    return Some(k);
                }
            }
            i = i + 1;
        }
        proof {
            seqs::lemma_first_none(keys@, p);
        }
        None
    }

    /// Whether a surface is wrapped by an `xdg_surface`.
    pub fn is_xdg(&self, surface: ClientObjectId) -> (r: bool)
        requires
            self.wf(),
        ensures
            r == self@.is_xdg(surface),
    {
        self.xdg_surface_for(surface).is_some()
    }

    /// The `xdg_toplevel` object driving a window, given its `wl_surface`.
    pub fn toplevel_for_surface(&self, key: ClientObjectId) -> (r: Option<ClientObjectId>)
        requires
            self.wf(),
        ensures
            r == self@.toplevel_for_surface(key),
    {
        match self.xdg_surface_for(key) {
            Some(k) => match self.xdg_surfaces.get(k) {
                Some(xdg) => match xdg.role {
                    Some(XdgRole::Toplevel(id)) => Some((k.0, id)),
                    _ => None,
                },
                None => None,
            },
            None => None,
        }
    }

    /// Find the `xdg_surface` and `xdg_toplevel` object ids backing a client's
    /// `wl_surface`, if that surface has the toplevel role.
    ///
    /// Most compositor-side state is keyed by `wl_surface`, but the `xdg_shell`
    /// events are addressed to the toplevel, so this bridges the two.
    pub fn xdg_ids_for_surface(&self, surface: ClientObjectId) -> (r: Option<(u32, u32)>)
        requires
            self.wf(),
        ensures
            r == self@.xdg_ids_for(surface),
    {
        let keys = self.xdg_surfaces.keys();
        let ghost p = windowing(self@.xdg_surfaces, surface);
        let mut i: usize = 0;
        while i < keys.len()
            invariant
                self.wf(),
                i <= keys@.len(),
                p == windowing(self@.xdg_surfaces, surface),
                table::lists(keys@, self@.xdg_surfaces.dom()),
                keys@ == table::ordered(self@.xdg_surfaces.dom()),
                forall|j: int| 0 <= j < i ==> !p(#[trigger] keys@[j]),
            decreases keys@.len() - i,
        {
            let k = keys[i];
            assert(keys@.contains(k));
            if let Some(xdg) = self.xdg_surfaces.get(k) {
                if k.0 == surface.0 && xdg.wl_surface_id == surface.1 {
                    if let Some(XdgRole::Toplevel(id)) = xdg.role {
                        proof {
                            seqs::lemma_first(keys@, p, i as int);
                        }
                        return Some((k.1, id));
                    }
                }
            }
            i = i + 1;
        }
        proof {
            seqs::lemma_first_none(keys@, p);
        }
        None
    }

    /// The surface an `xdg_surface` wraps.
    pub fn surface_of_xdg(&self, xdg: ClientObjectId) -> (r: Option<ClientObjectId>)
        requires
            self.wf(),
        ensures
            r == self@.surface_of_xdg(xdg),
    {
        match self.xdg_surfaces.get(xdg) {
            Some(state) => Some((xdg.0, state.wl_surface_id)),
            None => None,
        }
    }

    /// The surface a window is made of.
    pub fn surface_of_toplevel(&self, toplevel: ClientObjectId) -> (r: Option<ClientObjectId>)
        requires
            self.wf(),
        ensures
            r == self@.surface_of_toplevel(toplevel),
    {
        match self.xdg_toplevels.get(toplevel) {
            Some(state) => self.surface_of_xdg((toplevel.0, state.xdg_surface_id)),
            None => None,
        }
    }

    /// The size range a client has said it will accept.
    ///
    /// Returns `((min_w, min_h), (max_w, max_h))`, where a zero means the
    /// client named no limit in that dimension.
    pub fn client_size_limits(&self, surface: ClientObjectId) -> (r: ((i32, i32), (i32, i32)))
        requires
            self.wf(),
        ensures
            r == self@.size_limits(surface),
    {
        match self.toplevel_for_surface(surface) {
            Some(key) => match self.xdg_toplevels.get(key) {
                Some(t) => (t.min_size, t.max_size),
                None => ((0, 0), (0, 0)),
            },
            None => ((0, 0), (0, 0)),
        }
    }

    /// Work out which part of a surface's buffer is shown, and at what size.
    ///
    /// A `wp_viewport` source crops and a viewport destination sizes; failing
    /// either, the whole buffer is shown divided down by the surface's buffer
    /// scale, which is what turns an oversized buffer from a scaled client back
    /// into its logical size on screen.
    ///
    /// Shared by scene building and by damage mapping, which needs to run this
    /// backwards - the two must agree or damage lands in the wrong place.
    pub fn surface_buffer_mapping(&self, key: ClientObjectId) -> (r: Option<BufferMapping>)
        requires
            self.wf(),
        ensures
            r == self@.surface_mapping(key),
            r matches Some(m) ==> {
                &&& m.dest_width > 0
                &&& m.dest_height > 0
                &&& -SOURCE_LIMIT <= m.src.0 <= SOURCE_LIMIT
                &&& -SOURCE_LIMIT <= m.src.1 <= SOURCE_LIMIT
                &&& -SOURCE_LIMIT <= m.src.2 <= SOURCE_LIMIT
                &&& -SOURCE_LIMIT <= m.src.3 <= SOURCE_LIMIT
            },
    {
        let surface = match self.surfaces.get(key) {
            Some(surface) => surface,
            None => {
                return None;
            },
        };
        let buffer_id: u32 = match surface.buffer_id {
            Some(id) => id,
            None => {
                return None;
            },
        };
        let (width, height): (i32, i32) = match self.buffers.get((key.0, buffer_id)) {
            Some(buffer) => (buffer.width, buffer.height),
            None => {
                return None;
            },
        };
        if width <= 0 || height <= 0 {
            return None;
        }
        let viewport: Option<ViewportState> = match self.surface_viewport.get(key) {
            Some(id) => match self.viewports.get((key.0, *id)) {
                Some(v) => Some(*v),
                None => None,
            },
            None => None,
        };
        let source: Option<(i32, i32, i32, i32)> = match viewport {
            Some(v) => v.source,
            None => None,
        };
        let destination: Option<(i32, i32)> = match viewport {
            Some(v) => v.destination,
            None => None,
        };
        let src: (i64, i64, i64, i64) = match source {
            Some(s) => (s.0 as i64, s.1 as i64, s.2 as i64, s.3 as i64),
            None => (0, 0, width as i64 * 256, height as i64 * 256),
        };
        let scale: i32 = if surface.buffer_scale > 1 { surface.buffer_scale } else { 1 };
        let (dest_width, dest_height): (i32, i32) = match destination {
            Some(d) => d,
            None => {
                let (w, h): (i32, i32) = (fixed_to_i32(src.2), fixed_to_i32(src.3));
                if w <= 0 || h <= 0 {
                    proof {
                        assert(w <= 0 ==> (w as int) / (scale as int) <= 0) by (nonlinear_arith)
                            requires
                                scale >= 1,
                        ;
                        assert(h <= 0 ==> (h as int) / (scale as int) <= 0) by (nonlinear_arith)
                            requires
                                scale >= 1,
                        ;
                    }
                    return None;
                }
                assert((w as int) / (scale as int) <= w && (h as int) / (scale as int) <= h)
                    by (nonlinear_arith)
                    requires
                        scale >= 1,
                        w > 0,
                        h > 0,
                ;
                (w / scale, h / scale)
            },
        };
        if dest_width <= 0 || dest_height <= 0 {
            return None;
        }
        Some(BufferMapping { src, dest_width, dest_height })
    }

    /// Size of a window in surface-local coordinates.
    ///
    /// Zero until the client has attached a buffer, which is the usual state
    /// when a toplevel is first mapped.
    pub fn surface_size(&self, key: ClientObjectId) -> (r: (i32, i32))
        requires
            self.wf(),
        ensures
            r == self@.surface_size(key),
    {
        match self.surface_buffer_mapping(key) {
            Some(m) => (m.dest_width, m.dest_height),
            None => (0, 0),
        }
    }

    /// Put the pointer at a position, or as near to it as the outputs allow.
    pub fn move_cursor_to(&mut self, x: i64, y: i64)
        requires
            old(self).wf(),
        ensures
            final(self).wf(),
            final(self)@ == old(self)@.cursor_moved(x, y),
    {
        let (x, y): (i64, i64) = self.constrain_to_outputs(x, y);
        self.cursor_x = x;
        self.cursor_y = y;
    }

    /// Move the pointer by a delta.
    ///
    /// What a mouse actually reports: at the libinput layer a mouse has no
    /// position at all, only movement, and the pointer position is the
    /// compositor's to own and to keep somewhere sensible.
    pub fn move_cursor_by(&mut self, dx: i64, dy: i64)
        requires
            old(self).wf(),
        ensures
            final(self).wf(),
            final(self)@ == old(self)@.cursor_moved(
                held(old(self)@.cursor_x + dx, i64::MIN as int, i64::MAX as int) as i64,
                held(old(self)@.cursor_y + dy, i64::MIN as int, i64::MAX as int) as i64,
            ),
    {
        self.move_cursor_to(sum_held(self.cursor_x, dx), sum_held(self.cursor_y, dy));
    }

    /// Pull a position onto the outputs, if it is not on one already.
    ///
    /// Constraining matters more than it looks. A relative device gives deltas
    /// and nothing else, so an unconstrained pointer walks off the desktop and
    /// never comes back - and the failure is silent rather than loud: the
    /// cursor stops being drawn, hit testing finds nothing, and clicks go
    /// nowhere, with no edge for the user to push against.
    ///
    /// The constraint is the union of the outputs, not their bounding box.
    /// Two outputs of different heights side by side leave a notch belonging to
    /// no output, and a pointer there would be exactly as lost.
    fn constrain_to_outputs(&self, x: i64, y: i64) -> (r: (i64, i64))
        requires
            self.wf(),
        ensures
            r == self@.constrained(x, y),
            -CURSOR_LIMIT <= r.0 <= CURSOR_LIMIT,
            -CURSOR_LIMIT <= r.1 <= CURSOR_LIMIT,
    {
        if self.outputs.len() == 0 {
            return (
                hold_i64(x, i32::MIN as i64 * 256, i32::MAX as i64 * 256),
                hold_i64(y, i32::MIN as i64 * 256, i32::MAX as i64 * 256),
            );
        }
        let ghost views = self@.outputs;
        let mut nearest: Option<(i64, i64)> = None;
        let mut i: usize = 0;
        while i < self.outputs.len()
            invariant
                i <= self.outputs@.len(),
                views == self@.outputs,
                nearest == closest(views.take(i as int), x as int, y as int),
                nearest matches Some(p) ==> -CURSOR_LIMIT <= p.0 <= CURSOR_LIMIT && -CURSOR_LIMIT
                    <= p.1 <= CURSOR_LIMIT,
            decreases self.outputs@.len() - i,
        {
            proof {
                assert(views.take(i as int + 1).drop_last() =~= views.take(i as int));
                assert(views[i as int] == self.outputs@[i as int]@);
            }
            if let Some((x0, y0, x1, y1)) = cursor_bounds(&self.outputs[i]) {
                // The closest this output can get to where the pointer wanted
                // to be.
                let (cx, cy): (i64, i64) = (hold_i64(x, x0, x1), hold_i64(y, y0, y1));
                let closer = match nearest {
                    Some(best) => squared(cx, x) + squared(cy, y) < squared(best.0, x) + squared(
                        best.1,
                        y,
                    ),
                    None => true,
                };
                if closer {
                    nearest = Some((cx, cy));
                }
            }
            i = i + 1;
        }
        assert(views.take(i as int) =~= views);
        match nearest {
            Some(p) => p,
            None => (self.cursor_x, self.cursor_y),
        }
    }

    /// The output a new window should open on: the one under the pointer, or
    /// failing that whichever output comes first.
    pub fn output_for_new_window(&self) -> (r: Option<OutputId>)
        requires
            self.wf(),
        ensures
            r == self@.home(),
    {
        let (x, y): (i32, i32) = (fixed_to_i32(self.cursor_x), fixed_to_i32(self.cursor_y));
        match output_at(&self.outputs, x, y) {
            Some(i) => Some(self.outputs[i].id),
            None => if self.outputs.len() > 0 {
                Some(self.outputs[0].id)
            } else {
                None
            },
        }
    }

    /// Give every output the one workspace it starts with, and take back the
    /// windows of any output that has gone. Returns true if anything changed.
    ///
    /// Called when outputs are added or removed, and again every tick, so no
    /// path can leave an output without somewhere to put a window.
    pub fn sync_workspaces(&mut self) -> (r: bool)
        requires
            old(self).wf(),
        ensures
            final(self).wf(),
            final(self)@ == old(self)@.workspaces_synced(),
            r == !old(self)@.workspaces.in_step(output_ids(old(self)@.outputs)),
    {
        assert(workspace::ids_of(self.outputs@) =~= output_ids(self@.outputs));
        proof {
            workspace::lemma_sound_synced(self@.workspaces, output_ids(self@.outputs));
        }
        self.workspaces.sync_outputs(&self.outputs)
    }

    /// Which output a window is on: the one owning the workspace it is in.
    ///
    /// `None` for a window waiting to be placed, and for anything that is not
    /// a toplevel - popups and subsurfaces hang off a toplevel and take its
    /// output along with its position.
    pub fn surface_output(&self, surface_key: ClientObjectId) -> (r: Option<OutputId>)
        requires
            self.wf(),
        ensures
            r == self@.workspaces.output_of(surface_key),
    {
        self.workspaces.output_of(surface_key)
    }

    /// The topmost window the user can currently see and click on: the top of
    /// the workspace showing on the output under the pointer, or failing that
    /// of the first output that has a window.
    pub fn top_visible_toplevel(&self) -> (r: Option<ClientObjectId>)
        requires
            self.wf(),
        ensures
            r == self@.top_visible(),
    {
        if let Some(id) = self.output_for_new_window() {
            if let Some(w) = self.workspaces.active(id) {
                let top = w.top();
                if top.is_some() {
                    return top;
                }
            }
        }
        let ghost views = self@.outputs;
        let mut i: usize = 0;
        while i < self.outputs.len()
            invariant
                i <= self.outputs@.len(),
                views == self@.outputs,
                self@.top_here() is None,
                forall|j: int| 0 <= j < i ==> !showing(self@)(#[trigger] views[j]),
            decreases self.outputs@.len() - i,
        {
            assert(views[i as int] == self.outputs@[i as int]@);
            if let Some(w) = self.workspaces.active(self.outputs[i].id) {
                let top = w.top();
                if top.is_some() {
                    proof {
                        seqs::lemma_first(views, showing(self@), i as int);
                    }
                    return top;
                }
            }
            i = i + 1;
        }
        proof {
            seqs::lemma_first_none(views, showing(self@));
        }
        None
    }

    /// Put a newly mapped window on the workspace showing on an output, at
    /// that workspace's next cascade position.
    ///
    /// The window has no buffer yet, so its size is unknown here; the cascade
    /// only has to stay clear of the output's far edges, and
    /// [`Self::confine_toplevels`] pulls the window fully on-screen once its
    /// size is known.
    ///
    /// Returns false if the output has no workspace to put it on, which means
    /// the compositor has not seen that output.
    fn place_toplevel(&mut self, surface_key: ClientObjectId, output_id: OutputId) -> (r: bool)
        requires
            old(self).wf(),
        ensures
            final(self).wf(),
            final(self)@ == old(self)@.toplevel_placed(surface_key, output_id),
            r == old(self)@.can_place(output_id),
    {
        let (origin_x, origin_y, width, height): (i32, i32, i32, i32) = match find_output(
            &self.outputs,
            output_id,
        ) {
            Some(i) => {
                assert(self@.outputs[i as int] == self.outputs@[i as int]@);
                let g = &self.outputs[i].geometry;
                (g.x, g.y, g.physical_width, g.physical_height)
            },
            None => {
                return false;
            },
        };
        let (limit_x, limit_y): (i32, i32) = (half(width), half(height));
        let (local_x, local_y): (i32, i32) = match self.workspaces.active_mut(output_id) {
            Some(w) => w.next_cascade_slot(limit_x, limit_y),
            None => {
                return false;
            },
        };
        proof {
            let before = old(self)@.workspaces;
            let shown = before.active(output_id).unwrap().cascaded(limit_x, limit_y);
            workspace::lemma_sound_turned(before, output_id, shown);
            workspace::lemma_sound_placed(
                before.with_active(output_id, shown),
                output_id,
                surface_key,
            );
        }
        // A window lives in exactly one workspace.
        let _ = self.workspaces.place(output_id, surface_key);
        if let Some(surface) = self.surfaces.get_mut(surface_key) {
            surface.position = (
                saturating_sum(origin_x, local_x),
                saturating_sum(origin_y, local_y),
            );
        }
        assert(tree::surface_links(self@.surfaces) =~= tree::surface_links(old(self)@.surfaces));
        true
    }

    /// Open a window where a new window should, or hold it until there is
    /// somewhere. Returns whether there was.
    pub fn home_toplevel(&mut self, surface_key: ClientObjectId) -> (r: bool)
        requires
            old(self).wf(),
        ensures
            final(self).wf(),
            final(self)@ == old(self)@.homed(surface_key),
            r == old(self)@.has_home(),
    {
        if let Some(output_id) = self.output_for_new_window() {
            if self.place_toplevel(surface_key, output_id) {
                return true;
            }
        }
        proof {
            workspace::lemma_sound_held(self@.workspaces, surface_key);
        }
        // It waits in one place, as it would live in one.
        self.workspaces.remove(surface_key);
        self.workspaces.hold_unplaced(surface_key);
        false
    }

    /// Move a window to the workspace showing on another output, taking it off
    /// the one it was on. Returns true if it ended up somewhere new.
    pub fn move_toplevel_to_output(
        &mut self,
        surface_key: ClientObjectId,
        output_id: OutputId,
    ) -> (r: bool)
        requires
            old(self).wf(),
        ensures
            final(self).wf(),
            final(self)@ == old(self)@.moved_to_output(surface_key, output_id),
            r == (old(self)@.workspaces.output_of(surface_key) != Some(output_id) && old(
                self,
            )@.workspaces.active(output_id) is Some),
    {
        if let Some(current) = self.workspaces.output_of(surface_key) {
            if current == output_id {
                return false;
            }
        }
        proof {
            workspace::lemma_sound_placed(self@.workspaces, output_id, surface_key);
        }
        self.workspaces.place(output_id, surface_key)
    }

    /// Pull a window inside the output it is on. Returns whether it had to move.
    fn confine_window(&mut self, output_id: OutputId, key: ClientObjectId) -> (r: bool)
        requires
            old(self).wf(),
        ensures
            final(self).wf(),
            final(self)@ == old(self)@.window_confined(output_id, key),
            r == (final(self)@ != old(self)@),
    {
        let (width, height): (i32, i32) = self.surface_size(key);
        let (ox, oy, ow, oh): (i32, i32, i32, i32) = match find_output(&self.outputs, output_id) {
            Some(i) => {
                assert(self@.outputs[i as int] == self.outputs@[i as int]@);
                let g = &self.outputs[i].geometry;
                (g.x, g.y, g.physical_width, g.physical_height)
            },
            None => {
                return false;
            },
        };
        // A window too big for its output is pinned to the top-left; there is
        // no position that fits, and the top-left is the useful part.
        let max_x: i32 = saturate(ox as i64 + ow as i64 - width as i64);
        let max_y: i32 = saturate(oy as i64 + oh as i64 - height as i64);
        let max_x: i32 = if max_x < ox { ox } else { max_x };
        let max_y: i32 = if max_y < oy { oy } else { max_y };
        match self.surfaces.get_mut(key) {
            Some(surface) => {
                let (x, y): (i32, i32) = surface.position;
                let (cx, cy): (i32, i32) = (hold_i32(x, ox, max_x), hold_i32(y, oy, max_y));
                surface.position = (cx, cy);
                let moved = cx != x || cy != y;
                assert(tree::surface_links(self@.surfaces) =~= tree::surface_links(
                    old(self)@.surfaces,
                ));
                proof {
                    let after = old(self)@.window_confined(output_id, key);
                    if moved {
                        assert(after.surfaces[key].position != old(self)@.surfaces[key].position);
                    } else {
                        assert(after.surfaces =~= old(self)@.surfaces);
                        assert(after =~= old(self)@);
                    }
                }
                moved
            },
            None => false,
        }
    }

    /// Keep every window on an output that exists, and wholly inside it.
    ///
    /// A window belongs to one output and may not straddle two, so this both
    /// re-homes windows whose output has gone (or that were mapped before any
    /// output existed) and clamps positions back inside after a window is
    /// resized by its client or an output changes size.
    ///
    /// Returns true if anything moved.
    pub fn confine_toplevels(&mut self) -> (r: bool)
        requires
            old(self).wf(),
        ensures
            final(self).wf(),
            (final(self)@, r) == old(self)@.confined(),
    {
        // Outputs come and go without the workspaces hearing about it, so they
        // are reconciled here too: a new output gets its workspace, and the
        // windows of one that has gone come back as unplaced.
        let mut moved = self.sync_workspaces();
        proof {
            workspace::lemma_sound_unheld(self@.workspaces);
        }
        let unplaced = self.workspaces.take_unplaced();
        let ghost start = (self@, moved);
        let mut i: usize = 0;
        proof {
            state::lemma_each_ends(start, unplaced@, homing());
        }
        while i < unplaced.len()
            invariant
                self.wf(),
                i <= unplaced@.len(),
                (self@, moved) == state::each(start, unplaced@.take(i as int), homing()),
            decreases unplaced@.len() - i,
        {
            proof {
                state::lemma_each_step(start, unplaced@, homing(), i as int);
            }
            if self.home_toplevel(unplaced[i]) {
                moved = true;
            }
            i = i + 1;
        }
        proof {
            state::lemma_each_ends(start, unplaced@, homing());
        }
        let windows = self.workspaces.windows();
        let ghost start = (self@, moved);
        let mut i: usize = 0;
        proof {
            state::lemma_each_ends(start, windows@, confining());
        }
        while i < windows.len()
            invariant
                self.wf(),
                i <= windows@.len(),
                (self@, moved) == state::each(start, windows@.take(i as int), confining()),
            decreases windows@.len() - i,
        {
            proof {
                state::lemma_each_step(start, windows@, confining(), i as int);
            }
            let (output_id, key) = windows[i];
            if self.confine_window(output_id, key) {
                moved = true;
            }
            i = i + 1;
        }
        proof {
            state::lemma_each_ends(start, windows@, confining());
        }
        moved
    }
}

/// Holding a number to a range moves it no further than to any other number in
/// the range.
proof fn lemma_held_is_nearest(v: int, low: int, high: int, other: int)
    requires
        low <= other <= high,
    ensures
        low <= held(v, low, high) <= high,
        (held(v, low, high) - v) * (held(v, low, high) - v) <= (other - v) * (other - v),
{
    let d = held(v, low, high) - v;
    let e = other - v;
    if v < low {
        assert(d * d <= e * e) by (nonlinear_arith)
            requires
                0 <= d <= e,
        ;
    } else if v > high {
        assert(d * d <= e * e) by (nonlinear_arith)
            requires
                e <= d <= 0,
        ;
    } else {
        assert(d * d <= e * e) by (nonlinear_arith)
            requires
                d == 0,
        ;
    }
}

/// The pointer can be at a point on some output: on one of its pixels, counting
/// up to the start of its last.
pub open spec fn pointable(outputs: Seq<OutputView>, x: int, y: int) -> bool {
    exists|i: int|
        0 <= i < outputs.len() && #[trigger] outputs[i].has_area() && outputs[i].x * 256 <= x <= (
        outputs[i].x + outputs[i].width - 1) * 256 && outputs[i].y * 256 <= y <= (outputs[i].y
            + outputs[i].height - 1) * 256
}

/// The closest point of all is one the pointer can be at, and is as close as any
/// such point.
proof fn lemma_closest(outputs: Seq<OutputView>, x: int, y: int, ax: int, ay: int)
    requires
        pointable(outputs, ax, ay),
    ensures
        closest(outputs, x, y) matches Some(p) && pointable(outputs, p.0 as int, p.1 as int)
            && apart(p.0 as int, p.1 as int, x, y) <= apart(ax, ay, x, y),
    decreases outputs.len(),
{
    let rest = outputs.drop_last();
    let o = outputs.last();
    let i = choose|i: int|
        0 <= i < outputs.len() && #[trigger] outputs[i].has_area() && outputs[i].x * 256 <= ax <= (
        outputs[i].x + outputs[i].width - 1) * 256 && outputs[i].y * 256 <= ay <= (outputs[i].y
            + outputs[i].height - 1) * 256;
    assert(outputs[i].has_area());
    if i < rest.len() {
        assert(rest[i].has_area());
        lemma_closest(rest, x, y, ax, ay);
        let p = closest(rest, x, y).unwrap();
        let j = choose|j: int|
            0 <= j < rest.len() && #[trigger] rest[j].has_area() && rest[j].x * 256 <= p.0 <= (
            rest[j].x + rest[j].width - 1) * 256 && rest[j].y * 256 <= p.1 <= (rest[j].y
                + rest[j].height - 1) * 256;
        assert(outputs[j].has_area());
    } else if rest.len() > 0 && closest(rest, x, y) is Some {
        lemma_some_closest(rest, x, y);
        let p = closest(rest, x, y).unwrap();
        let j = choose|j: int|
            0 <= j < rest.len() && #[trigger] rest[j].has_area() && rest[j].x * 256 <= p.0 <= (
            rest[j].x + rest[j].width - 1) * 256 && rest[j].y * 256 <= p.1 <= (rest[j].y
                + rest[j].height - 1) * 256;
        assert(outputs[j].has_area());
    }
    if o.has_area() {
        let n = outputs.len() - 1;
        assert(outputs[n].has_area());
        lemma_held_is_nearest(x, o.x * 256, (o.x + o.width - 1) * 256, if i == n {
            ax
        } else {
            o.x * 256
        });
        lemma_held_is_nearest(y, o.y * 256, (o.y + o.height - 1) * 256, if i == n {
            ay
        } else {
            o.y * 256
        });
    }
}

/// Whatever is closest is a point the pointer can be at.
proof fn lemma_some_closest(outputs: Seq<OutputView>, x: int, y: int)
    ensures
        closest(outputs, x, y) matches Some(p) ==> pointable(outputs, p.0 as int, p.1 as int),
    decreases outputs.len(),
{
    if outputs.len() > 0 {
        let rest = outputs.drop_last();
        let o = outputs.last();
        lemma_some_closest(rest, x, y);
        if closest(rest, x, y) is Some {
            let p = closest(rest, x, y).unwrap();
            let j = choose|j: int|
                0 <= j < rest.len() && #[trigger] rest[j].has_area() && rest[j].x * 256 <= p.0 <= (
                rest[j].x + rest[j].width - 1) * 256 && rest[j].y * 256 <= p.1 <= (rest[j].y
                    + rest[j].height - 1) * 256;
            assert(outputs[j].has_area());
        }
        if o.has_area() {
            assert(outputs[outputs.len() - 1].has_area());
            lemma_held_is_nearest(x, o.x * 256, (o.x + o.width - 1) * 256, o.x * 256);
            lemma_held_is_nearest(y, o.y * 256, (o.y + o.height - 1) * 256, o.y * 256);
        }
    }
}

/// Where there is an output to be on, the pointer is never off the outputs.
pub proof fn law_the_pointer_lands_on_an_output(s: State, x: i64, y: i64, o: OutputView)
    requires
        s.outputs.contains(o),
        o.has_area(),
    ensures
        exists|i: int|
            0 <= i < s.outputs.len() && #[trigger] s.outputs[i].contains(
                s.cursor_moved(x, y).pixel().0 as int,
                s.cursor_moved(x, y).pixel().1 as int,
            ),
{
    let n = choose|n: int| 0 <= n < s.outputs.len() && s.outputs[n] == o;
    assert(s.outputs[n].has_area());
    lemma_closest(s.outputs, x as int, y as int, o.x * 256, o.y * 256);
    let p = closest(s.outputs, x as int, y as int).unwrap();
    let i = choose|i: int|
        0 <= i < s.outputs.len() && #[trigger] s.outputs[i].has_area() && s.outputs[i].x * 256
            <= p.0 <= (s.outputs[i].x + s.outputs[i].width - 1) * 256 && s.outputs[i].y * 256
            <= p.1 <= (s.outputs[i].y + s.outputs[i].height - 1) * 256;
    let pixel = s.cursor_moved(x, y).pixel();
    assert(pixel == (wire::fixed_whole(p.0 as int), wire::fixed_whole(p.1 as int)));
    assert(s.outputs[i].contains(pixel.0 as int, pixel.1 as int));
}

/// The pointer goes as near to where it is to be as the outputs allow: no point
/// it can be at is nearer.
pub proof fn law_the_pointer_goes_as_near_as_it_can(s: State, x: i64, y: i64, ax: int, ay: int)
    requires
        pointable(s.outputs, ax, ay),
    ensures
        apart(
            s.cursor_moved(x, y).cursor_x as int,
            s.cursor_moved(x, y).cursor_y as int,
            x as int,
            y as int,
        ) <= apart(ax, ay, x as int, y as int),
{
    lemma_closest(s.outputs, x as int, y as int, ax, ay);
}

/// A position the pointer can be at is left alone.
pub proof fn law_a_position_on_an_output_is_left_alone(s: State, x: i64, y: i64)
    requires
        pointable(s.outputs, x as int, y as int),
    ensures
        s.cursor_moved(x, y).cursor_x == x,
        s.cursor_moved(x, y).cursor_y == y,
{
    lemma_closest(s.outputs, x as int, y as int, x as int, y as int);
    let p = s.constrained(x, y);
    let (dx, dy) = (p.0 - x, p.1 - y);
    assert(apart(x as int, y as int, x as int, y as int) == 0) by {
        assert((x - x) * (x - x) == 0) by (nonlinear_arith);
        assert((y - y) * (y - y) == 0) by (nonlinear_arith);
    }
    assert(dx == 0 && dy == 0) by (nonlinear_arith)
        requires
            dx * dx + dy * dy <= 0,
    ;
}

/// A stretch lies inside another if it fits, and starts where the other does if
/// it does not.
pub open spec fn lies_within(start: int, size: int, origin: int, extent: int) -> bool {
    &&& origin <= start
    &&& size <= extent ==> start + size <= origin + extent
    &&& size > extent ==> start == origin
}

impl State {
    /// A window is wholly inside an output, or at its top left where it does
    /// not fit.
    pub open spec fn inside(self, id: OutputId, key: ClientObjectId) -> bool {
        self.output(id) is Some && self.surfaces.contains_key(key) ==> {
            let o = self.output(id).unwrap();
            let size = self.surface_size(key);
            let position = self.surfaces[key].position;
            &&& lies_within(position.0 as int, size.0 as int, o.x as int, o.width as int)
            &&& lies_within(position.1 as int, size.1 as int, o.y as int, o.height as int)
        }
    }
}

/// How large a surface is does not depend on where anything is.
proof fn lemma_moving_keeps_sizes(
    s: State,
    key: ClientObjectId,
    position: (i32, i32),
    other: ClientObjectId,
)
    requires
        s.surfaces.contains_key(key),
    ensures
        s.surface_put(key, position).surface_size(other) == s.surface_size(other),
{
    let after = s.surface_put(key, position);
    if s.surfaces.contains_key(other) {
        assert(after.surfaces[other].buffer_id == s.surfaces[other].buffer_id);
        assert(after.surfaces[other].buffer_scale == s.surfaces[other].buffer_scale);
    }
    assert(after.buffer_of(other) == s.buffer_of(other));
    assert(after.viewport_of(other) == s.viewport_of(other));
}

/// A window that is kept inside an output is inside it, and every other window
/// that was inside the output it is on still is.
pub proof fn law_a_confined_window_is_inside(
    s: State,
    id: OutputId,
    key: ClientObjectId,
    other_id: OutputId,
    other: ClientObjectId,
)
    ensures
        s.window_confined(id, key).inside(id, key),
        other != key && s.inside(other_id, other) ==> s.window_confined(id, key).inside(other_id, other),
{
    if s.output(id) is Some && s.surfaces.contains_key(key) {
        let position = s.window_confined(id, key).surfaces[key].position;
        assert(s.window_confined(id, key) == s.surface_put(key, position));
        lemma_moving_keeps_sizes(s, key, position, key);
        lemma_moving_keeps_sizes(s, key, position, other);
    }
}

/// Where there is an output, every window comes to be on one there is, once, and
/// inside it.
pub proof fn law_every_window_is_inside_its_output(s: State)
    requires
        s.workspaces.sound(),
        s.outputs.len() > 0,
    ensures
        s.confined().0.workspaces.unplaced.len() == 0,
        s.confined().0.workspaces.once(),
        s.confined().0.outputs == s.outputs,
        s.confined().0.workspaces.in_step(output_ids(s.outputs)),
        forall|i: int|
            0 <= i < workspace::all_windows(s.confined().0.workspaces.outputs).len()
                ==> s.confined().0.inside(
                (#[trigger] workspace::all_windows(s.confined().0.workspaces.outputs)[i]).0,
                workspace::all_windows(s.confined().0.workspaces.outputs)[i].1,
            ),
{
    let moved = !s.workspaces.in_step(output_ids(s.outputs));
    let synced = s.workspaces_synced();
    let unplaced = synced.workspaces.unplaced;
    let start = State { workspaces: synced.workspaces.unheld(), ..synced };
    let ids = output_ids(s.outputs);
    reveal(WorkspacesView::sound);
    workspace::law_every_output_has_a_workspace(s.workspaces, ids);
    workspace::law_sync_keeps_windows(s.workspaces, ids, (0, 0));
    assert(start.workspaces.once()) by {
        assert forall|k: ClientObjectId| #[trigger] start.workspaces.times(k) <= 1 by {
            assert(synced.workspaces.times(k) <= 1);
        }
    }
    assert forall|i: int| 0 <= i < start.workspaces.outputs.len() implies (
    #[trigger] start.workspaces.outputs[i]).wf() by {
        assert(synced.workspaces.outputs[i].wf());
    }
    lemma_home_exists(start);
    workspace::lemma_in_step_by_outputs(synced.workspaces, start.workspaces, ids);
    let settled = |a: (State, bool)|
        {
            &&& a.0.workspaces.in_step(ids)
            &&& a.0.workspaces.once()
            &&& a.0.workspaces.wf()
            &&& a.0.workspaces.unplaced.len() == 0
            &&& a.0.outputs == s.outputs
            &&& a.0.has_home()
        };
    assert forall|a: (State, bool), k: ClientObjectId| settled(a) implies settled(
        #[trigger] homing()(a, k),
    ) by {
        lemma_homing_settles(a.0, k);
        workspace::lemma_in_step_by_outputs(a.0.workspaces, a.0.homed(k).workspaces, ids);
    }
    state::lemma_each_keeps((start, moved), unplaced, homing(), settled);
    let (at_home, moved) = state::each((start, moved), unplaced, homing());
    let windows = workspace::all_windows(at_home.workspaces.outputs);
    lemma_confining_all(at_home, moved, windows);
}

/// Where every output has a workspace and there is an output, there is somewhere
/// for a window to open.
proof fn lemma_home_exists(s: State)
    requires
        s.outputs.len() > 0,
        s.workspaces.wf(),
        forall|i: int|
            0 <= i < output_ids(s.outputs).len() ==> s.workspaces.active(
                #[trigger] output_ids(s.outputs)[i],
            ) is Some,
    ensures
        s.has_home(),
{
    let p = under(s.pixel().0 as int, s.pixel().1 as int);
    seqs::lemma_first_holds(s.outputs, p);
    let i = match seqs::first(s.outputs, p) {
        Some(i) => i,
        None => 0,
    };
    assert(output_ids(s.outputs)[i] == s.outputs[i].id);
    assert(s.home() == Some(s.outputs[i].id));
    seqs::lemma_first_holds(s.outputs, named(s.outputs[i].id));
    assert(named(s.outputs[i].id)(s.outputs[i]));
}

/// Giving a window a home leaves every window in one place and homes to be had.
proof fn lemma_homing_settles(s: State, key: ClientObjectId)
    requires
        s.workspaces.once(),
        s.workspaces.wf(),
        s.workspaces.unplaced.len() == 0,
        s.has_home(),
    ensures
        s.homed(key).workspaces.once(),
        s.homed(key).workspaces.wf(),
        s.homed(key).workspaces.unplaced.len() == 0,
        s.homed(key).outputs == s.outputs,
        s.homed(key).has_home(),
        workspace::same_outputs(s.workspaces, s.homed(key).workspaces),
{
    let id = s.home().unwrap();
    let o = s.output(id).unwrap();
    let limit_x = positioner::halved(o.width as int) as i32;
    let limit_y = positioner::halved(o.height as int) as i32;
    let w = s.workspaces.active(id).unwrap();
    let cascaded = s.workspaces.with_active(id, w.cascaded(limit_x, limit_y));
    workspace::lemma_cascading_moves_nothing(s.workspaces, id, limit_x, limit_y);
    workspace::lemma_placing_keeps_workspaces(cascaded, id, key);
    workspace::lemma_placing_keeps_outputs(
        s.workspaces,
        id,
        w.cascaded(limit_x, limit_y),
        key,
    );
    workspace::law_placed(cascaded, id, key, key);
    let after = s.homed(key);
    assert(after.workspaces == cascaded.placed(id, key));
    assert(s.workspaces.unplaced =~= Seq::empty());
    assert(cascaded.unplaced =~= Seq::empty());
    workspace::lemma_nothing_without(key);
    assert(after.home() == s.home());
    assert(after.output(id) == s.output(id));
}

/// Windows that are in one place each are all inside their outputs once each has
/// been kept inside its own.
proof fn lemma_confining_all(s: State, moved: bool, windows: Seq<(OutputId, ClientObjectId)>)
    requires
        s.workspaces.once(),
        windows == workspace::all_windows(s.workspaces.outputs),
    ensures
        state::each((s, moved), windows, confining()).0.workspaces == s.workspaces,
        state::each((s, moved), windows, confining()).0.outputs == s.outputs,
        forall|i: int|
            0 <= i < windows.len() ==> state::each((s, moved), windows, confining()).0.inside(
                (#[trigger] windows[i]).0,
                windows[i].1,
            ),
{
    lemma_confining_some(s, moved, windows, windows.len() as int);
    assert(windows.take(windows.len() as int) =~= windows);
}

proof fn lemma_confining_some(
    s: State,
    moved: bool,
    windows: Seq<(OutputId, ClientObjectId)>,
    n: int,
)
    requires
        s.workspaces.once(),
        windows == workspace::all_windows(s.workspaces.outputs),
        0 <= n <= windows.len(),
    ensures
        state::each((s, moved), windows.take(n), confining()).0.workspaces == s.workspaces,
        state::each((s, moved), windows.take(n), confining()).0.outputs == s.outputs,
        forall|i: int|
            0 <= i < n ==> state::each((s, moved), windows.take(n), confining()).0.inside(
                (#[trigger] windows[i]).0,
                windows[i].1,
            ),
    decreases n,
{
    if n > 0 {
        lemma_confining_some(s, moved, windows, n - 1);
        state::lemma_each_step((s, moved), windows, confining(), n - 1);
        let before = state::each((s, moved), windows.take(n - 1), confining()).0;
        let after = state::each((s, moved), windows.take(n), confining()).0;
        let (id, key) = windows[n - 1];
        assert(after == before.window_confined(id, key));
        let es = s.workspaces.outputs;
        workspace::lemma_windows_are_stacks(es);
        assert forall|i: int| 0 <= i < n implies after.inside(
            (#[trigger] windows[i]).0,
            windows[i].1,
        ) by {
            if i < n - 1 {
                assert(s.workspaces.times(key) <= 1);
                assert(windows[i].1 == workspace::all_stacks(es)[i]);
                assert(windows[n - 1].1 == workspace::all_stacks(es)[n - 1]);
                workspace::lemma_once_apart(workspace::all_stacks(es), i, n - 1);
                law_a_confined_window_is_inside(before, id, key, windows[i].0, windows[i].1);
            } else {
                law_a_confined_window_is_inside(before, id, key, id, key);
            }
        }
    }
}

/// A window that is inside its output is left where it is.
proof fn lemma_inside_stays(s: State, id: OutputId, key: ClientObjectId)
    requires
        s.inside(id, key),
    ensures
        s.window_confined(id, key) == s,
{
    if s.output(id) is Some && s.surfaces.contains_key(key) {
        let after = s.window_confined(id, key);
        assert(after.surfaces[key].position == s.surfaces[key].position);
        assert(after.surfaces =~= s.surfaces);
    }
}

/// What changes nothing changes nothing however often it is done.
proof fn lemma_each_nothing<S, T>(s: S, items: Seq<T>, f: spec_fn(S, T) -> S)
    requires
        forall|i: int| 0 <= i < items.len() ==> f(s, #[trigger] items[i]) == s,
    ensures
        state::each(s, items, f) == s,
    decreases items.len(),
{
    if items.len() > 0 {
        let rest = items.drop_last();
        assert forall|i: int| 0 <= i < rest.len() implies f(s, #[trigger] rest[i]) == s by {
            assert(f(s, items[i]) == s);
        }
        lemma_each_nothing(s, rest, f);
        assert(f(s, items[items.len() - 1]) == s);
    }
}

/// Where there is no output, windows that look for a home end up where they were.
proof fn lemma_no_home(s: State, moved: bool, keys: Seq<ClientObjectId>, n: int)
    requires
        s.outputs.len() == 0,
        s.workspaces.outputs.len() == 0,
        s.workspaces.unplaced.len() == 0,
        forall|k: ClientObjectId| #[trigger] workspace::times_in(keys, k) <= 1,
        0 <= n <= keys.len(),
    ensures
        state::each((s, moved), keys.take(n), homing()) == (
            State {
                workspaces: WorkspacesView { unplaced: keys.take(n), ..s.workspaces },
                ..s
            },
            moved,
        ),
    decreases n,
{
    if n == 0 {
        assert(keys.take(0) =~= s.workspaces.unplaced);
    } else {
        lemma_no_home(s, moved, keys, n - 1);
        state::lemma_each_step((s, moved), keys, homing(), n - 1);
        let before = state::each((s, moved), keys.take(n - 1), homing()).0;
        seqs::lemma_first_holds(before.outputs, under(
            before.pixel().0 as int,
            before.pixel().1 as int,
        ));
        assert(before.home() is None);
        workspace::lemma_held_again(before.workspaces, keys, n - 1);
    }
}

/// Once every window is inside its output, seeing to it again finds nothing to
/// do.
pub proof fn law_confining_windows_is_idempotent(s: State)
    requires
        s.workspaces.sound(),
    ensures
        s.confined().0.confined() == (s.confined().0, false),
{
    let t = s.confined().0;
    let ids = output_ids(s.outputs);
    if s.outputs.len() > 0 {
        law_every_window_is_inside_its_output(s);
        workspace::law_sync_is_idempotent(t.workspaces, ids);
        assert(t.workspaces_synced() == t);
        assert(t.workspaces.unplaced =~= Seq::empty());
        assert(t.workspaces.unheld() == t.workspaces);
        let windows = workspace::all_windows(t.workspaces.outputs);
        assert forall|i: int| 0 <= i < windows.len() implies confining()(
            (t, false),
            #[trigger] windows[i],
        ) == (t, false) by {
            lemma_inside_stays(t, windows[i].0, windows[i].1);
        }
        lemma_each_nothing((t, false), windows, confining());
    } else {
        let synced = s.workspaces_synced();
        let moved = !s.workspaces.in_step(ids);
        let unplaced = synced.workspaces.unplaced;
        reveal(WorkspacesView::sound);
        workspace::law_sync_keeps_windows(s.workspaces, ids, (0, 0));
        workspace::law_every_output_has_a_workspace(s.workspaces, ids);
        assert(synced.workspaces.outputs.len() == 0) by {
            if synced.workspaces.outputs.len() > 0 {
                assert(ids.contains(synced.workspaces.outputs[0].output));
            }
        }
        assert forall|k: ClientObjectId| #[trigger] workspace::times_in(unplaced, k) <= 1 by {
            assert(synced.workspaces.times(k) <= 1);
        }
        let start = State { workspaces: synced.workspaces.unheld(), ..synced };
        assert(unplaced.take(unplaced.len() as int) =~= unplaced);
        lemma_no_home(start, moved, unplaced, unplaced.len() as int);
        assert(t == synced);
        workspace::law_sync_is_idempotent(t.workspaces, ids);
        assert(t.workspaces_synced() == t);
        lemma_no_home(start, false, unplaced, unplaced.len() as int);
    }
}

/// A window that opens on an output is on the workspace showing there, on top,
/// and on no other, wherever it was before.
pub proof fn law_a_window_opens_in_one_workspace(
    s: State,
    key: ClientObjectId,
    id: OutputId,
    other: OutputId,
)
    requires
        s.workspaces.sound(),
        s.can_place(id),
        other != id,
    ensures
        s.toplevel_placed(key, id).workspaces.sound(),
        s.toplevel_placed(key, id).workspaces.times(key) == 1,
        workspace::top_of(s.toplevel_placed(key, id).workspaces.visible_stack(id)) == Some(key),
        !s.toplevel_placed(key, id).workspaces.visible_stack(other).contains(key),
        s.toplevel_placed(key, id).workspaces.output_of(key) == Some(id),
{
    let o = s.output(id).unwrap();
    let limit_x = positioner::halved(o.width as int) as i32;
    let limit_y = positioner::halved(o.height as int) as i32;
    let shown = s.workspaces.active(id).unwrap().cascaded(limit_x, limit_y);
    workspace::lemma_sound_turned(s.workspaces, id, shown);
    workspace::law_a_placed_window_is_in_one_workspace(
        s.workspaces.with_active(id, shown),
        id,
        key,
        other,
    );
}

} // verus!

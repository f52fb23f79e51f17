//! `wl_surface` protocol handler.
//!
//! A surface is a rectangular area of pixels that can be displayed. Clients
//! attach buffers, mark damage, request frame callbacks, and commit to make
//! changes visible. The compositor reads committed state during rendering.

use crate::client::ObjectType;
use crate::objects::{
    self, copy_region, saturating_sum, BufferMapping, PendingInputRegion,
    PendingInputRegionView, Surface, SurfacePendingView, SurfaceView, ViewportState,
};
use crate::protocol::{acknowledge, malformed_request, unknown_request};
use crate::shared::TextureRect;
use crate::state::{CompositorState, State};
use crate::tree;
use crate::windows::{self, clamp_surface_offset, SOURCE_LIMIT};
use crate::wire::{self, tell1, ArgReader, Request, WaylandProtocolMessageWithClientInfo};
use crate::workspace::ClientObjectId;
use vstd::prelude::*;

verus! {

// Request opcodes
pub const DESTROY: u16 = 0;

pub const ATTACH: u16 = 1;

pub const DAMAGE: u16 = 2;

pub const FRAME: u16 = 3;

pub const SET_OPAQUE_REGION: u16 = 4;

pub const SET_INPUT_REGION: u16 = 5;

pub const COMMIT: u16 = 6;

pub const SET_BUFFER_TRANSFORM: u16 = 7;

pub const SET_BUFFER_SCALE: u16 = 8;

pub const DAMAGE_BUFFER: u16 = 9;

pub const OFFSET: u16 = 10;

// Event opcodes
pub const ENTER: u16 = 0;

pub const LEAVE: u16 = 1;

/// `wl_surface.error.invalid_scale`
pub const ERROR_INVALID_SCALE: u32 = 0;

/// An offset and one more on top of it, held to where a surface can be.
pub open spec fn offset_sum(a: (i32, i32), b: (i32, i32)) -> (i32, i32) {
    windows::offset_held(objects::saturated(a.0 + b.0) as int, objects::saturated(a.1 + b.1) as int)
}

/// What is left of a rectangle inside a buffer, if anything is.
pub open spec fn clipped(rect: TextureRect, width: i32, height: i32) -> Option<TextureRect> {
    let x0 = if rect.x > 0 { rect.x as int } else { 0 };
    let y0 = if rect.y > 0 { rect.y as int } else { 0 };
    let right = objects::saturated(rect.x + rect.width) as int;
    let bottom = objects::saturated(rect.y + rect.height) as int;
    let x1 = if right < width { right } else { width as int };
    let y1 = if bottom < height { bottom } else { height as int };
    if x1 > x0 && y1 > y0 {
        Some(
            TextureRect {
                x: x0 as i32,
                y: y0 as i32,
                width: (x1 - x0) as i32,
                height: (y1 - y0) as i32,
            },
        )
    } else {
        None
    }
}

/// What is left of some rectangles inside a buffer.
pub open spec fn all_clipped(rects: Seq<TextureRect>, width: i32, height: i32) -> Seq<TextureRect>
    decreases rects.len(),
{
    if rects.len() == 0 {
        Seq::empty()
    } else {
        let rest = all_clipped(rects.drop_last(), width, height);
        match clipped(rects.last(), width, height) {
            Some(rect) => rest.push(rect),
            None => rest,
        }
    }
}

/// Where a surface coordinate falls in a buffer, over a denominator of 256
/// times the size it is shown at.
pub open spec fn along(origin: i64, length: i64, shown: i32, v: i32) -> int {
    origin * shown + v * length
}

/// The buffer pixel a surface coordinate falls in, and one more for good
/// measure.
pub open spec fn pixel_before(origin: i64, length: i64, shown: i32, v: i32) -> int {
    along(origin, length, shown, v) / (256 * shown) - 1
}

/// The buffer pixel past a surface coordinate, and one more for good measure.
pub open spec fn pixel_after(origin: i64, length: i64, shown: i32, v: i32) -> int {
    1 - (-along(origin, length, shown, v)) / (256 * shown)
}

/// Which buffer pixels a rectangle of a surface takes in. Rounded outward and
/// padded by a pixel: taking in a little more than changed is always safe.
pub open spec fn through(m: BufferMapping, rect: TextureRect) -> TextureRect {
    let right = objects::saturated(rect.x + rect.width);
    let bottom = objects::saturated(rect.y + rect.height);
    let x0 = pixel_before(m.src.0, m.src.2, m.dest_width, rect.x);
    let y0 = pixel_before(m.src.1, m.src.3, m.dest_height, rect.y);
    let x1 = pixel_after(m.src.0, m.src.2, m.dest_width, right);
    let y1 = pixel_after(m.src.1, m.src.3, m.dest_height, bottom);
    TextureRect {
        x: objects::saturated(x0),
        y: objects::saturated(y0),
        width: objects::saturated(x1 - x0),
        height: objects::saturated(y1 - y0),
    }
}

/// Which buffer pixels a rectangle of a surface takes in.
pub open spec fn mapping_through(m: BufferMapping) -> spec_fn(TextureRect) -> TextureRect {
    |rect: TextureRect| through(m, rect)
}

impl SurfaceView {
    /// The surface once what was pending on it holds.
    pub open spec fn committed(self) -> Self {
        let p = self.pending;
        SurfaceView {
            buffer_id: if p.buffer_attached {
                p.buffer_id
            } else {
                self.buffer_id
            },
            frame_callback: if p.frame_callback is Some {
                p.frame_callback
            } else {
                self.frame_callback
            },
            presentation_feedbacks: self.presentation_feedbacks + p.presentation_feedbacks,
            buffer_scale: match p.buffer_scale {
                Some(scale) => scale,
                None => self.buffer_scale,
            },
            offset: offset_sum(self.offset, p.offset),
            input_region: match p.input_region {
                PendingInputRegionView::Unchanged => self.input_region,
                PendingInputRegionView::Infinite => None,
                PendingInputRegionView::Rects(rects) => Some(rects),
            },
            pending: SurfacePendingView {
                buffer_id: if p.buffer_attached {
                    None
                } else {
                    p.buffer_id
                },
                ..SurfacePendingView::nothing()
            },
            ..self
        }
    }

    /// The buffer a commit replaces.
    pub open spec fn replaced(self) -> Option<u32> {
        if self.pending.buffer_attached && self.pending.buffer_id != self.buffer_id {
            self.buffer_id
        } else {
            None
        }
    }
}

impl State {
    /// The state once a surface is another.
    pub open spec fn surface_changed(self, key: ClientObjectId, surface: SurfaceView) -> Self {
        State { surfaces: self.surfaces.insert(key, surface), ..self }
    }

    /// The state once something more is pending on a surface, if there is one.
    pub open spec fn pending_changed(self, key: ClientObjectId, pending: SurfacePendingView) -> Self {
        if self.surfaces.contains_key(key) {
            self.surface_changed(key, SurfaceView { pending, ..self.surfaces[key] })
        } else {
            self
        }
    }

    /// The state once a client has attached a buffer.
    pub open spec fn buffer_attached(self, r: Request) -> Self {
        let p = self.surfaces[r.key()].pending;
        match (r.word(0), r.signed(4), r.signed(8)) {
            (Some(buffer), Some(x), Some(y)) => self.pending_changed(
                r.key(),
                SurfacePendingView {
                    buffer_attached: true,
                    buffer_id: if buffer == 0 {
                        None
                    } else {
                        Some(buffer)
                    },
                    offset: offset_sum(p.offset, (x, y)),
                    ..p
                },
            ),
            _ => self.malformed(r, "wl_surface"@),
        }
    }

    /// The state once a client has moved a surface's content.
    pub open spec fn offset_asked(self, r: Request) -> Self {
        let p = self.surfaces[r.key()].pending;
        match (r.signed(0), r.signed(4)) {
            (Some(x), Some(y)) => self.pending_changed(
                r.key(),
                SurfacePendingView { offset: offset_sum(p.offset, (x, y)), ..p },
            ),
            _ => self.malformed(r, "wl_surface"@),
        }
    }

    /// The state once a client has said what it changed, in surface coordinates
    /// or in buffer coordinates.
    pub open spec fn damage_told(self, r: Request, in_buffer: bool) -> Self {
        let p = self.surfaces[r.key()].pending;
        match (r.signed(0), r.signed(4), r.signed(8), r.signed(12)) {
            (Some(x), Some(y), Some(width), Some(height)) => {
                let rect = TextureRect { x, y, width, height };
                self.pending_changed(
                    r.key(),
                    if in_buffer {
                        SurfacePendingView { damage_buffer: p.damage_buffer.push(rect), ..p }
                    } else {
                        SurfacePendingView { damage_surface: p.damage_surface.push(rect), ..p }
                    },
                )
            },
            _ => self.malformed(r, "wl_surface"@),
        }
    }

    /// The state once a client has asked to be told when to draw again.
    pub open spec fn frame_asked(self, r: Request) -> Self {
        match r.word(0) {
            Some(callback) => {
                let s = self.registered(r.client, callback, ObjectType::WlCallback);
                if self.can_register(r.client, callback) {
                    s.pending_changed(
                        r.key(),
                        SurfacePendingView {
                            frame_callback: Some(callback),
                            ..s.surfaces[r.key()].pending
                        },
                    )
                } else {
                    s
                }
            },
            None => self.malformed(r, "wl_surface"@),
        }
    }

    /// The state once a client has said which part of a surface takes input. A
    /// region it does not have says nothing.
    pub open spec fn input_region_set(self, r: Request) -> Self {
        let p = self.surfaces[r.key()].pending;
        match r.word(0) {
            Some(id) => if id == 0 {
                self.pending_changed(
                    r.key(),
                    SurfacePendingView { input_region: PendingInputRegionView::Infinite, ..p },
                )
            } else if self.regions.contains_key((r.client, id)) {
                self.pending_changed(
                    r.key(),
                    SurfacePendingView {
                        input_region: PendingInputRegionView::Rects(
                            self.regions[(r.client, id)].rects,
                        ),
                        ..p
                    },
                )
            } else {
                self
            },
            None => self.malformed(r, "wl_surface"@),
        }
    }

    /// The state once a client has said how large its buffer's pixels are.
    pub open spec fn scale_set(self, r: Request) -> Self {
        match r.signed(0) {
            Some(scale) => if scale < 1 {
                self.errored(
                    r.client,
                    r.object,
                    ERROR_INVALID_SCALE,
                    "wl_surface.set_buffer_scale: scale must be >= 1"@,
                )
            } else {
                self.pending_changed(
                    r.key(),
                    SurfacePendingView {
                        buffer_scale: Some(scale),
                        ..self.surfaces[r.key()].pending
                    },
                )
            },
            None => self.malformed(r, "wl_surface"@),
        }
    }

    /// The state once what was pending on a surface holds, its damage aside.
    pub open spec fn pending_applied(self, key: ClientObjectId) -> Self {
        if self.surfaces.contains_key(key) {
            let surface = self.surfaces[key];
            let s = match surface.replaced() {
                Some(buffer) => State {
                    buffers_pending_release: self.buffers_pending_release.push((key.0, buffer)),
                    ..self
                },
                None => self,
            };
            s.surface_changed(key, surface.committed()).dirtied()
        } else {
            self
        }
    }

    /// The state once what was pending on a surface's viewport holds.
    pub open spec fn viewport_applied(self, key: ClientObjectId) -> Self {
        match self.viewport_of(key) {
            Some(v) => State {
                viewports: self.viewports.insert(
                    (key.0, self.surface_viewport[key]),
                    ViewportState {
                        source: if v.pending_source is Some {
                            v.pending_source
                        } else {
                            v.source
                        },
                        destination: if v.pending_destination is Some {
                            v.pending_destination
                        } else {
                            v.destination
                        },
                        pending_source: None,
                        pending_destination: None,
                        ..v
                    },
                ),
                ..self
            },
            None => self,
        }
    }

    /// What a commit changed of a buffer, in buffer pixels. Nothing said means
    /// everything.
    pub open spec fn committed_damage(
        self,
        key: ClientObjectId,
        buffer_id: u32,
        damage_surface: Seq<TextureRect>,
        damage_buffer: Seq<TextureRect>,
    ) -> Seq<TextureRect> {
        let buffer = self.buffers[(key.0, buffer_id)];
        if !self.buffers.contains_key((key.0, buffer_id)) {
            Seq::empty()
        } else if damage_surface.len() == 0 {
            all_clipped(damage_buffer, buffer.width, buffer.height)
        } else {
            match self.surface_mapping(key) {
                Some(m) => all_clipped(damage_buffer, buffer.width, buffer.height) + all_clipped(
                    damage_surface.map_values(mapping_through(m)),
                    buffer.width,
                    buffer.height,
                ),
                None => Seq::empty(),
            }
        }
    }

    /// The state once a client has committed a surface.
    pub open spec fn surface_committed(self, key: ClientObjectId) -> Self {
        let s = self.pending_applied(key).viewport_applied(key);
        let p = self.surfaces[key].pending;
        if self.surfaces.contains_key(key) {
            match s.surfaces[key].buffer_id {
                Some(buffer) => s.damaged(
                    key.0,
                    buffer,
                    s.committed_damage(key, buffer, p.damage_surface, p.damage_buffer),
                ),
                None => s,
            }
        } else {
            s
        }
    }

    /// The state once a client knows that a surface is on an output.
    pub open spec fn surface_entered(self, client_id: u32, surface_id: u32, output: u32) -> Self {
        self.sent(client_id, wire::told1(surface_id, ENTER, output))
    }

    /// The state once a client knows that a surface is not on an output.
    pub open spec fn surface_left(self, client_id: u32, surface_id: u32, output: u32) -> Self {
        self.sent(client_id, wire::told1(surface_id, LEAVE, output))
    }

    /// The state once a `wl_surface` request has been handled.
    pub open spec fn wl_surface_handled(self, r: Request) -> Self {
        if r.op == DESTROY {
            self.surface_destroyed(r.client, r.object).dirtied().unregistered(r.client, r.object)
        } else if r.op == ATTACH {
            self.buffer_attached(r)
        } else if r.op == DAMAGE {
            self.damage_told(r, false)
        } else if r.op == DAMAGE_BUFFER {
            self.damage_told(r, true)
        } else if r.op == FRAME {
            self.frame_asked(r)
        } else if r.op == SET_INPUT_REGION {
            self.input_region_set(r)
        } else if r.op == SET_BUFFER_SCALE {
            self.scale_set(r)
        } else if r.op == OFFSET {
            self.offset_asked(r)
        } else if r.op == SET_OPAQUE_REGION || r.op == SET_BUFFER_TRANSFORM {
            self.acknowledged(r, 1, "wl_surface"@)
        } else if r.op == COMMIT {
            self.surface_committed(r.key())
        } else {
            self.rejected(r, "wl_surface"@)
        }
    }
}

/// Send `wl_surface.enter` - this surface is now shown on the given output.
///
/// Clients need this to choose a buffer scale: `wl_output.scale` is per output,
/// so a surface cannot know what scale to render at until it knows which
/// outputs it is on. `output_object_id` is the client's own `wl_output` object,
/// not the compositor's internal id.
pub fn send_enter(
    state: &mut CompositorState,
    client_id: u32,
    surface_id: u32,
    output_object_id: u32,
)
    requires
        old(state).wf(),
    ensures
        final(state).wf(),
        final(state)@ == old(state)@.surface_entered(client_id, surface_id, output_object_id),
{
    state.send(client_id, tell1(surface_id, ENTER, output_object_id));
}

/// Send `wl_surface.leave` - this surface is no longer shown on the given output.
pub fn send_leave(
    state: &mut CompositorState,
    client_id: u32,
    surface_id: u32,
    output_object_id: u32,
)
    requires
        old(state).wf(),
    ensures
        final(state).wf(),
        final(state)@ == old(state)@.surface_left(client_id, surface_id, output_object_id),
{
    state.send(client_id, tell1(surface_id, LEAVE, output_object_id));
}

pub fn handle(state: &mut CompositorState, msg: &WaylandProtocolMessageWithClientInfo)
    requires
        old(state).wf(),
    ensures
        final(state).wf(),
        final(state)@ == old(state)@.wl_surface_handled(msg@),
{
    proof {
        reveal_strlit("wl_surface");
    }
    match msg.message.op_code {
        DESTROY => {
            state.destroy_surface(msg.client_id, msg.message.object_id);
            state.dirty = true;
            state.unregister(msg.client_id, msg.message.object_id);
        },
        ATTACH => handle_attach(state, msg),
        // The two damage requests differ in coordinate space, so they cannot
        // share a list: `damage` is surface-local, `damage_buffer` is in
        // buffer pixels, and only the latter is directly usable as an upload
        // region.
        DAMAGE => handle_damage(state, msg, false),
        DAMAGE_BUFFER => handle_damage(state, msg, true),
        FRAME => handle_frame(state, msg),
        SET_INPUT_REGION => handle_set_input_region(state, msg),
        SET_BUFFER_SCALE => handle_set_buffer_scale(state, msg),
        OFFSET => handle_offset(state, msg),
        // Acknowledged and not acted upon
        SET_OPAQUE_REGION | SET_BUFFER_TRANSFORM => {
            acknowledge(state, msg, 1, "wl_surface");
        },
        COMMIT => handle_commit(state, msg),
        _ => unknown_request(state, msg, "wl_surface"),
    }
}

/// Add one offset onto the pending one, keeping it within bounds.
///
/// Offsets accumulate across attaches within a commit, so this adds rather than
/// replaces. Clamped for the same reason a subsurface position is: these are
/// raw numbers from the client and are later added to a cursor position.
fn accumulate_offset(pending: (i32, i32), x: i32, y: i32) -> (r: (i32, i32))
    ensures
        r == offset_sum(pending, (x, y)),
{
    clamp_surface_offset(saturating_sum(pending.0, x), saturating_sum(pending.1, y))
}

fn handle_attach(state: &mut CompositorState, msg: &WaylandProtocolMessageWithClientInfo)
    requires
        old(state).wf(),
    ensures
        final(state).wf(),
        final(state)@ == old(state)@.buffer_attached(msg@),
{
    proof {
        reveal_strlit("wl_surface");
    }
    let mut args = ArgReader::new(msg.message.args.as_slice());
    // attach args: object buffer (id or 0 for null), int32 x, int32 y
    let (buffer_id, x, y) = (args.u32(), args.i32(), args.i32());
    match (buffer_id, x, y) {
        (Some(buffer_id), Some(x), Some(y)) => {
            if let Some(surface) = state.surfaces.get_mut((msg.client_id, msg.message.object_id)) {
                surface.pending.buffer_attached = true;
                // buffer_id 0 means detach
                surface.pending.buffer_id = if buffer_id == 0 {
                    None
                } else {
                    Some(buffer_id)
                };
                surface.pending.offset = accumulate_offset(surface.pending.offset, x, y);
            }
            assert(tree::surface_links(state@.surfaces) =~= tree::surface_links(
                old(state)@.surfaces,
            ));
        },
        _ => malformed_request(state, msg, "wl_surface"),
    }
}

fn handle_offset(state: &mut CompositorState, msg: &WaylandProtocolMessageWithClientInfo)
    requires
        old(state).wf(),
    ensures
        final(state).wf(),
        final(state)@ == old(state)@.offset_asked(msg@),
{
    proof {
        reveal_strlit("wl_surface");
    }
    let mut args = ArgReader::new(msg.message.args.as_slice());
    let (x, y) = (args.i32(), args.i32());
    match (x, y) {
        (Some(x), Some(y)) => {
            if let Some(surface) = state.surfaces.get_mut((msg.client_id, msg.message.object_id)) {
                surface.pending.offset = accumulate_offset(surface.pending.offset, x, y);
            }
            assert(tree::surface_links(state@.surfaces) =~= tree::surface_links(
                old(state)@.surfaces,
            ));
        },
        _ => malformed_request(state, msg, "wl_surface"),
    }
}

fn handle_damage(
    state: &mut CompositorState,
    msg: &WaylandProtocolMessageWithClientInfo,
    in_buffer: bool,
)
    requires
        old(state).wf(),
    ensures
        final(state).wf(),
        final(state)@ == old(state)@.damage_told(msg@, in_buffer),
{
    proof {
        reveal_strlit("wl_surface");
    }
    let mut args = ArgReader::new(msg.message.args.as_slice());
    // damage args: int32 x, int32 y, int32 width, int32 height
    let (x, y, width, height) = (args.i32(), args.i32(), args.i32(), args.i32());
    match (x, y, width, height) {
        (Some(x), Some(y), Some(width), Some(height)) => {
            let rect = TextureRect { x, y, width, height };
            if let Some(surface) = state.surfaces.get_mut((msg.client_id, msg.message.object_id)) {
                if in_buffer {
                    surface.pending.damage_buffer.push(rect);
                } else {
                    surface.pending.damage_surface.push(rect);
                }
            }
            assert(tree::surface_links(state@.surfaces) =~= tree::surface_links(
                old(state)@.surfaces,
            ));
        },
        _ => malformed_request(state, msg, "wl_surface"),
    }
}

fn handle_frame(state: &mut CompositorState, msg: &WaylandProtocolMessageWithClientInfo)
    requires
        old(state).wf(),
    ensures
        final(state).wf(),
        final(state)@ == old(state)@.frame_asked(msg@),
{
    proof {
        reveal_strlit("wl_surface");
    }
    let mut args = ArgReader::new(msg.message.args.as_slice());
    // frame args: new_id callback
    match args.new_id() {
        Some(callback_id) => {
            if !state.register(msg.client_id, callback_id, ObjectType::WlCallback) {
                return ;
            }
            let ghost before = state@;
            if let Some(surface) = state.surfaces.get_mut((msg.client_id, msg.message.object_id)) {
                surface.pending.frame_callback = Some(callback_id);
            }
            assert(tree::surface_links(state@.surfaces) =~= tree::surface_links(before.surfaces));
        },
        None => malformed_request(state, msg, "wl_surface"),
    }
}

/// `wl_surface.set_input_region` - restrict which parts of the surface accept
/// pointer input.
///
/// The region is *copied* rather than referenced: the protocol lets the client
/// destroy the `wl_region` immediately afterwards, and later changes to that
/// object must not affect the surface. Like most surface state it is
/// double-buffered, so it only takes effect on the next commit.
fn handle_set_input_region(state: &mut CompositorState, msg: &WaylandProtocolMessageWithClientInfo)
    requires
        old(state).wf(),
    ensures
        final(state).wf(),
        final(state)@ == old(state)@.input_region_set(msg@),
{
    proof {
        reveal_strlit("wl_surface");
    }
    let mut args = ArgReader::new(msg.message.args.as_slice());
    let region_id: u32 = match args.u32() {
        Some(id) => id,
        None => {
            malformed_request(state, msg, "wl_surface");
            return ;
        },
    };
    // A null region is the protocol's way of saying "infinite": the whole
    // surface accepts input again.
    let region = if region_id == 0 {
        PendingInputRegion::Infinite
    } else {
        match state.regions.get((msg.client_id, region_id)) {
            Some(region) => PendingInputRegion::Rects(copy_region(&region.rects)),
            None => {
                return ;
            },
        }
    };
    if let Some(surface) = state.surfaces.get_mut((msg.client_id, msg.message.object_id)) {
        surface.pending.input_region = region;
    }
    assert(tree::surface_links(state@.surfaces) =~= tree::surface_links(old(state)@.surfaces));
}

/// `wl_surface.set_buffer_scale` - how many buffer pixels map to one
/// surface-local coordinate.
///
/// A client on a scaled output submits a buffer this many times larger and sets
/// the scale, so the compositor knows the surface is still its logical size.
/// Double-buffered like the rest of surface state.
fn handle_set_buffer_scale(state: &mut CompositorState, msg: &WaylandProtocolMessageWithClientInfo)
    requires
        old(state).wf(),
    ensures
        final(state).wf(),
        final(state)@ == old(state)@.scale_set(msg@),
{
    proof {
        reveal_strlit("wl_surface");
    }
    let mut args = ArgReader::new(msg.message.args.as_slice());
    let scale: i32 = match args.i32() {
        Some(scale) => scale,
        None => {
            malformed_request(state, msg, "wl_surface");
            return ;
        },
    };
    if scale < 1 {
        proof {
            reveal_strlit("wl_surface.set_buffer_scale: scale must be >= 1");
        }
        state.fail(
            msg.client_id,
            msg.message.object_id,
            ERROR_INVALID_SCALE,
            "wl_surface.set_buffer_scale: scale must be >= 1",
        );
        return ;
    }
    if let Some(surface) = state.surfaces.get_mut((msg.client_id, msg.message.object_id)) {
        surface.pending.buffer_scale = Some(scale);
    }
    assert(tree::surface_links(state@.surfaces) =~= tree::surface_links(old(state)@.surfaces));
}

/// Have what is pending on a surface hold. Gives back what it was said to have
/// damaged, in surface coordinates and in buffer coordinates.
fn commit_surface(surface: &mut Surface) -> (r: (Vec<TextureRect>, Vec<TextureRect>))
    ensures
        final(surface)@ == old(surface)@.committed(),
        r.0@ == old(surface)@.pending.damage_surface,
        r.1@ == old(surface)@.pending.damage_buffer,
{
    // Apply pending buffer
    if surface.pending.buffer_attached {
        surface.buffer_id = surface.pending.buffer_id;
        surface.pending.buffer_id = None;
        surface.pending.buffer_attached = false;
    }
    // Move frame callback to committed state (fired on next render)
    if surface.pending.frame_callback.is_some() {
        surface.frame_callback = surface.pending.frame_callback;
        surface.pending.frame_callback = None;
    }
    // Move presentation feedbacks to committed state
    surface.presentation_feedbacks.append(&mut surface.pending.presentation_feedbacks);
    // Apply pending buffer scale
    if let Some(scale) = surface.pending.buffer_scale {
        surface.buffer_scale = scale;
    }
    surface.pending.buffer_scale = None;
    // Apply the accumulated attach offset. Only the drag icon reads it.
    let offset: (i32, i32) = surface.pending.offset;
    surface.offset = accumulate_offset(surface.offset, offset.0, offset.1);
    surface.pending.offset = (0, 0);
    // Apply pending input region
    let mut region = PendingInputRegion::Unchanged;
    std::mem::swap(&mut region, &mut surface.pending.input_region);
    match region {
        PendingInputRegion::Unchanged => {},
        PendingInputRegion::Infinite => {
            surface.input_region = None;
        },
        PendingInputRegion::Rects(rects) => {
            surface.input_region = Some(rects);
        },
    }
    let mut damage_surface: Vec<TextureRect> = Vec::new();
    std::mem::swap(&mut damage_surface, &mut surface.pending.damage_surface);
    let mut damage_buffer: Vec<TextureRect> = Vec::new();
    std::mem::swap(&mut damage_buffer, &mut surface.pending.damage_buffer);
    assert(surface@ =~= old(surface)@.committed());
    (damage_surface, damage_buffer)
}

/// Have what is pending on a surface's viewport hold.
fn commit_viewport(state: &mut CompositorState, key: ClientObjectId)
    requires
        old(state).wf(),
    ensures
        final(state).wf(),
        final(state)@ == old(state)@.viewport_applied(key),
{
    let id: u32 = match state.surface_viewport.get(key) {
        Some(id) => *id,
        None => {
            return ;
        },
    };
    if let Some(viewport) = state.viewports.get_mut((key.0, id)) {
        if viewport.pending_source.is_some() {
            viewport.source = viewport.pending_source;
            viewport.pending_source = None;
        }
        if viewport.pending_destination.is_some() {
            viewport.destination = viewport.pending_destination;
            viewport.pending_destination = None;
        }
    }
}

fn handle_commit(state: &mut CompositorState, msg: &WaylandProtocolMessageWithClientInfo)
    requires
        old(state).wf(),
    ensures
        final(state).wf(),
        final(state)@ == old(state)@.surface_committed(msg@.key()),
{
    let key = (msg.client_id, msg.message.object_id);
    let (replaced, committed, damage_surface, damage_buffer): (
        Option<u32>,
        Option<u32>,
        Vec<TextureRect>,
        Vec<TextureRect>,
    ) = match state.surfaces.get_mut(key) {
        Some(surface) => {
            // The old buffer is to be released if it changed
            let replaced: Option<u32> = match (
                surface.buffer_id,
                surface.pending.buffer_id,
                surface.pending.buffer_attached,
            ) {
                (Some(before), Some(after), true) => if before == after {
                    None
                } else {
                    Some(before)
                },
                (Some(before), None, true) => Some(before),
                _ => None,
            };
            let (damage_surface, damage_buffer) = commit_surface(surface);
            (replaced, surface.buffer_id, damage_surface, damage_buffer)
        },
        None => {
            assert(state@ =~= old(state)@);
            commit_viewport(state, key);
            return ;
        },
    };
    if let Some(buffer) = replaced {
        state.buffers_pending_release.push((key.0, buffer));
    }
    state.dirty = true;
    assert(tree::surface_links(state@.surfaces) =~= tree::surface_links(old(state)@.surfaces));
    assert(state@ =~= old(state)@.pending_applied(key));
    // Apply pending viewport state before reading damage: surface-local damage
    // is interpreted through the viewport this same commit installs.
    commit_viewport(state, key);
    // A commit is the only point at which a client promises its buffer contents
    // are stable, and it may have redrawn into a buffer it never detached, so
    // every commit marks the attached buffer changed. What the damage adds is
    // how *much* of it changed.
    if let Some(buffer_id) = committed {
        let damage = committed_damage(
            state,
            key,
            buffer_id,
            damage_surface.as_slice(),
            damage_buffer.as_slice(),
        );
        state.mark_buffer_damaged(key.0, buffer_id, damage.as_slice());
    }
}

/// Convert a commit's damage into buffer-pixel rectangles.
///
/// An empty result means "assume the whole buffer changed", and every
/// uncertain case collapses to it: damage is a promise that everything
/// *outside* it is unchanged, so a rectangle that cannot be placed accurately
/// is worse than no rectangle at all.
pub fn committed_damage(
    state: &CompositorState,
    key: ClientObjectId,
    buffer_id: u32,
    damage_surface: &[TextureRect],
    damage_buffer: &[TextureRect],
) -> (r: Vec<TextureRect>)
    requires
        state.wf(),
    ensures
        r@ == state@.committed_damage(key, buffer_id, damage_surface@, damage_buffer@),
{
    let (width, height): (i32, i32) = match state.buffers.get((key.0, buffer_id)) {
        Some(buffer) => (buffer.width, buffer.height),
        None => {
            return Vec::new();
        },
    };
    let mut rects: Vec<TextureRect> = Vec::new();
    let mut i: usize = 0;
    while i < damage_buffer.len()
        invariant
            i <= damage_buffer@.len(),
            rects@ == all_clipped(damage_buffer@.take(i as int), width, height),
        decreases damage_buffer@.len() - i,
    {
        assert(damage_buffer@.take(i as int + 1).drop_last() =~= damage_buffer@.take(i as int));
        if let Some(rect) = clamp_rect(damage_buffer[i], width, height) {
            rects.push(rect);
        }
        i = i + 1;
    }
    assert(damage_buffer@.take(i as int) =~= damage_buffer@);
    if damage_surface.len() == 0 {
        return rects;
    }
    // Surface coordinates only mean something through the same mapping the
    // scene draws with, run backwards. Without it, nothing can be placed.
    let mapping = match state.surface_buffer_mapping(key) {
        Some(mapping) => mapping,
        None => {
            return Vec::new();
        },
    };
    let ghost direct = rects@;
    let ghost mapped = damage_surface@.map_values(mapping_through(mapping));
    let mut i: usize = 0;
    assert(direct + all_clipped(mapped.take(0), width, height) =~= direct);
    while i < damage_surface.len()
        invariant
            i <= damage_surface@.len(),
            mapped == damage_surface@.map_values(mapping_through(mapping)),
            mapping.dest_width > 0,
            mapping.dest_height > 0,
            -SOURCE_LIMIT <= mapping.src.0 <= SOURCE_LIMIT,
            -SOURCE_LIMIT <= mapping.src.1 <= SOURCE_LIMIT,
            -SOURCE_LIMIT <= mapping.src.2 <= SOURCE_LIMIT,
            -SOURCE_LIMIT <= mapping.src.3 <= SOURCE_LIMIT,
            rects@ == direct + all_clipped(mapped.take(i as int), width, height),
        decreases damage_surface@.len() - i,
    {
        assert(mapped.take(i as int + 1).drop_last() =~= mapped.take(i as int));
        let rect = map_rect(mapping, damage_surface[i]);
        assert(rect == mapped[i as int]);
        let ghost before = rects@;
        if let Some(rect) = clamp_rect(rect, width, height) {
            rects.push(rect);
        }
        assert(rects@ =~= direct + all_clipped(mapped.take(i as int + 1), width, height));
        i = i + 1;
    }
    assert(mapped.take(i as int) =~= mapped);
    rects
}

/// A quotient rounded down.
fn floor_div(a: i128, b: i128) -> (r: i128)
    requires
        b > 0,
        -0x1_0000_0000_0000_0000_0000_0000 <= a <= 0x1_0000_0000_0000_0000_0000_0000,
        b <= 0x1_0000_0000_0000_0000_0000_0000,
    ensures
        r == a as int / b as int,
        -0x1_0000_0000_0000_0000_0000_0000 <= r <= 0x1_0000_0000_0000_0000_0000_0000,
{
    if a >= 0 {
        assert(0 <= a as int / b as int <= a) by (nonlinear_arith)
            requires
                a >= 0,
                b > 0,
        ;
        a / b
    } else {
        let up: i128 = (-a - 1) / b;
        proof {
            assert((-a - 1) as int / b as int == up as int);
            assert(a as int / b as int == -(up as int) - 1 && 0 <= up <= -a - 1) by (nonlinear_arith)
                requires
                    a < 0,
                    b > 0,
                    up as int == (-a - 1) as int / b as int,
            ;
        }
        -up - 1
    }
}

/// The first and the last buffer pixel a span of a surface takes in, along one
/// axis.
fn map_span(origin: i64, length: i64, shown: i32, from: i32, to: i32) -> (r: (i128, i128))
    requires
        shown > 0,
        -SOURCE_LIMIT <= origin <= SOURCE_LIMIT,
        -SOURCE_LIMIT <= length <= SOURCE_LIMIT,
    ensures
        r.0 == pixel_before(origin, length, shown, from),
        r.1 == pixel_after(origin, length, shown, to),
        -0x2_0000_0000_0000_0000_0000_0000 <= r.0 <= 0x2_0000_0000_0000_0000_0000_0000,
        -0x2_0000_0000_0000_0000_0000_0000 <= r.1 <= 0x2_0000_0000_0000_0000_0000_0000,
{
    let (o, l, s, f, t): (i128, i128, i128, i128, i128) = (
        origin as i128,
        length as i128,
        shown as i128,
        from as i128,
        to as i128,
    );
    proof {
        lemma_product(o as int, s as int);
        lemma_product(l as int, f as int);
        lemma_product(l as int, t as int);
        assert(f * l == l * f && t * l == l * t) by (nonlinear_arith);
    }
    let low: i128 = floor_div(o * s + f * l, 256 * s);
    let high: i128 = floor_div(-(o * s + t * l), 256 * s);
    (low - 1, 1 - high)
}

proof fn lemma_product(a: int, b: int)
    requires
        -SOURCE_LIMIT <= a <= SOURCE_LIMIT,
        -0x8000_0000 <= b <= 0x8000_0000,
    ensures
        -0x40_0000_0000_0000_0000 <= a * b <= 0x40_0000_0000_0000_0000,
{
    assert(-0x40_0000_0000_0000_0000 <= a * b <= 0x40_0000_0000_0000_0000) by (nonlinear_arith)
        requires
            -0x80_0000_0000 <= a <= 0x80_0000_0000,
            -0x8000_0000 <= b <= 0x8000_0000,
    ;
}

/// A number held to what an `i32` can carry.
fn saturate_wide(v: i128) -> (r: i32)
    ensures
        r == objects::saturated(v as int),
{
    if v < i32::MIN as i128 {
        i32::MIN
    } else if v > i32::MAX as i128 {
        i32::MAX
    } else {
        v as i32
    }
}

/// Which buffer pixels a rectangle of a surface takes in.
fn map_rect(m: BufferMapping, rect: TextureRect) -> (r: TextureRect)
    requires
        m.dest_width > 0,
        m.dest_height > 0,
        -SOURCE_LIMIT <= m.src.0 <= SOURCE_LIMIT,
        -SOURCE_LIMIT <= m.src.1 <= SOURCE_LIMIT,
        -SOURCE_LIMIT <= m.src.2 <= SOURCE_LIMIT,
        -SOURCE_LIMIT <= m.src.3 <= SOURCE_LIMIT,
    ensures
        r == through(m, rect),
{
    let right: i32 = saturating_sum(rect.x, rect.width);
    let bottom: i32 = saturating_sum(rect.y, rect.height);
    let (x0, x1): (i128, i128) = map_span(m.src.0, m.src.2, m.dest_width, rect.x, right);
    let (y0, y1): (i128, i128) = map_span(m.src.1, m.src.3, m.dest_height, rect.y, bottom);
    TextureRect {
        x: saturate_wide(x0),
        y: saturate_wide(y0),
        width: saturate_wide(x1 - x0),
        height: saturate_wide(y1 - y0),
    }
}

/// Clip a rectangle to a buffer, dropping it if nothing is left.
pub fn clamp_rect(rect: TextureRect, width: i32, height: i32) -> (r: Option<TextureRect>)
    ensures
        r == clipped(rect, width, height),
{
    let x0: i32 = if rect.x > 0 { rect.x } else { 0 };
    let y0: i32 = if rect.y > 0 { rect.y } else { 0 };
    let right: i32 = saturating_sum(rect.x, rect.width);
    let bottom: i32 = saturating_sum(rect.y, rect.height);
    let x1: i32 = if right < width { right } else { width };
    let y1: i32 = if bottom < height { bottom } else { height };
    if x1 > x0 && y1 > y0 {
        Some(TextureRect { x: x0, y: y0, width: x1 - x0, height: y1 - y0 })
    } else {
        None
    }
}

/// A surface as it shows, whatever is pending on it.
pub open spec fn shown(surface: SurfaceView) -> SurfaceView {
    SurfaceView { pending: SurfacePendingView::nothing(), ..surface }
}

/// Nothing a client says of a surface shows before it commits it: until then it
/// is pending, and neither this nor any other surface, nor any buffer, is
/// another.
pub proof fn law_nothing_shows_before_a_commit(s: State, r: Request, k: ClientObjectId)
    requires
        r.op != COMMIT,
        r.op != DESTROY,
    ensures
        s.wl_surface_handled(r).surfaces.contains_key(k) == s.surfaces.contains_key(k),
        s.surfaces.contains_key(k) ==> shown(s.wl_surface_handled(r).surfaces[k]) == shown(
            s.surfaces[k],
        ),
        s.wl_surface_handled(r).buffers == s.buffers,
        s.wl_surface_handled(r).viewports == s.viewports,
        s.wl_surface_handled(r).dirty == s.dirty,
{
}

/// A commit uses up what was pending: committing again right away changes
/// nothing on the surface.
pub proof fn law_a_commit_uses_up_what_is_pending(surface: SurfaceView)
    ensures
        surface.committed().committed() == surface.committed(),
{
    let once = surface.committed();
    assert(once.presentation_feedbacks + Seq::<u32>::empty() =~= once.presentation_feedbacks);
    assert(once.committed() =~= once);
}

/// A pixel is in a rectangle.
pub open spec fn covers(rect: TextureRect, x: int, y: int) -> bool {
    &&& rect.x <= x < objects::saturated(rect.x + rect.width)
    &&& rect.y <= y < objects::saturated(rect.y + rect.height)
}

/// What is left of a rectangle inside a buffer is exactly the pixels that are in
/// both.
pub proof fn law_clipping_keeps_what_is_in_the_buffer(
    rect: TextureRect,
    width: i32,
    height: i32,
    x: int,
    y: int,
)
    ensures
        covers(rect, x, y) && 0 <= x < width && 0 <= y < height <==> (clipped(
            rect,
            width,
            height,
        ) matches Some(c) && covers(c, x, y)),
{
}

/// A place on a surface shows nothing outside the pixels a changed stretch of it
/// is taken to have changed, as long as it is on that stretch.
pub proof fn law_mapped_damage_takes_in_all_of_it(
    origin: i64,
    length: i64,
    shown: i32,
    from: i32,
    to: i32,
    v: i32,
)
    requires
        length >= 0,
        shown > 0,
        from <= v <= to,
    ensures
        pixel_before(origin, length, shown, from) * (256 * shown) <= along(origin, length, shown, v),
        along(origin, length, shown, v) <= pixel_after(origin, length, shown, to) * (256 * shown),
{
    let d = 256 * shown;
    let low = along(origin, length, shown, from);
    let high = along(origin, length, shown, to);
    let at = along(origin, length, shown, v);
    assert(low <= at <= high) by (nonlinear_arith)
        requires
            length >= 0,
            from <= v <= to,
            low == origin * shown + from * length,
            at == origin * shown + v * length,
            high == origin * shown + to * length,
    ;
    let q = low / d;
    let p = (-high) / d;
    vstd::arithmetic::div_mod::lemma_fundamental_div_mod(low, d);
    vstd::arithmetic::div_mod::lemma_fundamental_div_mod(-high, d);
    assert((q - 1) * d <= low) by (nonlinear_arith)
        requires
            low == d * q + low % d,
            0 <= low % d,
            d > 0,
    ;
    assert(high <= (1 - p) * d) by (nonlinear_arith)
        requires
            -high == d * p + (-high) % d,
            0 <= (-high) % d < d,
            d > 0,
    ;
}

} // verus!

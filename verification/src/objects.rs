//! The things clients make and the compositor keeps: buffers, surfaces,
//! regions, windows, popups, drags.
//!
//! Every type that holds text or a list has a counterpart ending in `View`
//! that says what it holds as a sequence; the rest are their own view.

use crate::seqs;
use crate::shared::{OutputId, TextureRect};
use crate::wire::Fd;
use crate::workspace::ClientObjectId;
use vstd::prelude::*;

verus! {

/// A shared memory pool
#[derive(Debug, Clone, Copy, PartialEq, Eq, Structural)]
pub struct ShmPool {
    /// Client owning the pool
    pub client_id: u32,
    /// The file descriptor pointing to the shared memory
    pub fd: Fd,
    /// The size of the shared memory
    pub size: u32,
    /// Whether the shared memory is mapped. A pool that is not renders nothing.
    pub mapped: bool,
    /// True after `wl_shm_pool.destroy` - the pool will be freed once no
    /// buffers reference it.
    pub dead: bool,
}

impl View for ShmPool {
    type V = ShmPool;

    open spec fn view(&self) -> ShmPool {
        *self
    }
}

/// A buffer in some [`ShmPool`]
#[derive(Debug)]
pub struct ShmBuffer {
    /// Pool Id that this buffer points into
    pub pool_id: u32,
    /// Offset into the pool where this buffer begins
    pub offset: i32,
    /// Actual byte length of each row in this buffer (includes padding, etc.)
    pub stride: i32,
    /// Format of this buffer
    pub format: u32,
    /// What changed since the damage was last consumed, in buffer pixels.
    ///
    /// `None` means "assume everything" - the client told us nothing, the
    /// buffer is new, or its mapping moved. Damage is a promise about what did
    /// *not* change, so anything uncertain has to widen to the whole buffer.
    /// `Some` is exact, and an empty `Some` means nothing has changed since it
    /// was last read, which is why the two cannot share a representation.
    pub damage: Option<Vec<TextureRect>>,
}

/// A shm buffer, its damage as a sequence.
#[verifier::ext_equal]
pub struct ShmBufferView {
    pub pool_id: u32,
    pub offset: i32,
    pub stride: i32,
    pub format: u32,
    pub damage: Option<Seq<TextureRect>>,
}

impl View for ShmBuffer {
    type V = ShmBufferView;

    open spec fn view(&self) -> ShmBufferView {
        ShmBufferView {
            pool_id: self.pool_id,
            offset: self.offset,
            stride: self.stride,
            format: self.format,
            damage: match self.damage {
                Some(rects) => Some(rects@),
                None => None,
            },
        }
    }
}

/// How many planes a dma-buf can have.
pub const MAX_DMABUF_PLANES: usize = 4;

/// One plane of a dma-buf: where its memory is.
#[derive(Debug, Clone, Copy, PartialEq, Eq, Structural)]
pub struct DmabufPlane {
    /// The descriptor of the memory
    pub fd: Fd,
    /// Where in it the plane begins
    pub offset: u32,
    /// Bytes from one row to the next
    pub stride: u32,
}

/// A buffer the client rendered on the GPU.
#[derive(Debug)]
pub struct DmabufImage {
    /// Width in pixels
    pub width: i32,
    /// Height in pixels
    pub height: i32,
    /// The DRM format
    pub fourcc: u32,
    /// How the memory is laid out
    pub modifier: u64,
    /// Where the memory is
    pub planes: Vec<DmabufPlane>,
}

/// A dma-buf, its planes as a sequence.
#[verifier::ext_equal]
pub struct DmabufImageView {
    pub width: i32,
    pub height: i32,
    pub fourcc: u32,
    pub modifier: u64,
    pub planes: Seq<DmabufPlane>,
}

impl View for DmabufImage {
    type V = DmabufImageView;

    open spec fn view(&self) -> DmabufImageView {
        DmabufImageView {
            width: self.width,
            height: self.height,
            fourcc: self.fourcc,
            modifier: self.modifier,
            planes: self.planes@,
        }
    }
}

impl DmabufImage {
    /// The same image again. The descriptors are named, not duplicated.
    pub fn again(&self) -> (r: Self)
        ensures
            r@ == self@,
    {
        let mut planes: Vec<DmabufPlane> = Vec::new();
        let mut i: usize = 0;
        while i < self.planes.len()
            invariant
                i <= self.planes@.len(),
                planes@ == self.planes@.take(i as int),
            decreases self.planes@.len() - i,
        {
            planes.push(self.planes[i]);
            assert(self.planes@.take(i as int + 1) =~= self.planes@.take(i as int).push(
                self.planes@[i as int],
            ));
            i = i + 1;
        }
        assert(self.planes@.take(i as int) =~= self.planes@);
        DmabufImage {
            width: self.width,
            height: self.height,
            fourcc: self.fourcc,
            modifier: self.modifier,
            planes,
        }
    }
}

/// Where a buffer's pixels are.
#[derive(Debug)]
pub enum BufferKind {
    /// In shared memory
    Shm(ShmBuffer),
    /// On the GPU
    Dmabuf(DmabufImage),
    /// Nowhere: the buffer could not be made, and draws nothing
    Failed,
}

/// Where a buffer's pixels are, lists as sequences.
#[verifier::ext_equal]
pub enum BufferKindView {
    Shm(ShmBufferView),
    Dmabuf(DmabufImageView),
    Failed,
}

impl View for BufferKind {
    type V = BufferKindView;

    open spec fn view(&self) -> BufferKindView {
        match self {
            BufferKind::Shm(b) => BufferKindView::Shm(b@),
            BufferKind::Dmabuf(i) => BufferKindView::Dmabuf(i@),
            BufferKind::Failed => BufferKindView::Failed,
        }
    }
}

/// A `wl_buffer`.
#[derive(Debug)]
pub struct Buffer {
    /// Client owning the buffer
    pub client_id: u32,
    /// Width of this buffer in pixels
    pub width: i32,
    /// Height of this buffer in pixels
    pub height: i32,
    /// Identifies the current contents of this buffer.
    ///
    /// Drawn from a counter that never repeats, so a buffer id reused after
    /// destruction cannot collide with the old one, and anything holding a
    /// copy can tell whether it is still current by comparing serials alone.
    pub content_serial: u64,
    /// Where the pixels are
    pub kind: BufferKind,
}

/// A buffer, lists as sequences.
#[verifier::ext_equal]
pub struct BufferView {
    pub client_id: u32,
    pub width: i32,
    pub height: i32,
    pub content_serial: u64,
    pub kind: BufferKindView,
}

impl View for Buffer {
    type V = BufferView;

    open spec fn view(&self) -> BufferView {
        BufferView {
            client_id: self.client_id,
            width: self.width,
            height: self.height,
            content_serial: self.content_serial,
            kind: self.kind@,
        }
    }
}

/// Whether a rectangle adds to or subtracts from a region.
#[derive(Debug, Clone, Copy, PartialEq, Eq, Structural)]
pub enum RegionOp {
    Add,
    Subtract,
}

/// One add/subtract rectangle from a `wl_region`.
#[derive(Debug, Clone, Copy, PartialEq, Eq, Structural)]
pub struct RegionRect {
    pub op: RegionOp,
    pub x: i32,
    pub y: i32,
    pub width: i32,
    pub height: i32,
}

impl RegionRect {
    /// A point falls inside the rectangle, whose far edges stop at the end of
    /// the coordinate space.
    pub open spec fn holds(self, x: int, y: int) -> bool {
        &&& self.x <= x < saturated(self.x + self.width)
        &&& self.y <= y < saturated(self.y + self.height)
    }

    /// Whether a point falls inside the rectangle.
    pub fn contains(self, x: i32, y: i32) -> (r: bool)
        ensures
            r == self.holds(x as int, y as int),
    {
        x >= self.x && y >= self.y && x < saturating_sum(self.x, self.width) && y < saturating_sum(
            self.y,
            self.height,
        )
    }
}

/// A number held to what an `i32` can carry.
pub open spec fn saturated(v: int) -> i32 {
    if v < i32::MIN {
        i32::MIN
    } else if v > i32::MAX {
        i32::MAX
    } else {
        v as i32
    }
}

/// Hold a number to what an `i32` can carry.
pub fn saturate(v: i64) -> (r: i32)
    ensures
        r == saturated(v as int),
{
    if v < i32::MIN as i64 {
        i32::MIN
    } else if v > i32::MAX as i64 {
        i32::MAX
    } else {
        v as i32
    }
}

/// Add, stopping at the ends of the coordinate space.
pub fn saturating_sum(a: i32, b: i32) -> (r: i32)
    ensures
        r == saturated(a + b),
{
    saturate(a as i64 + b as i64)
}

/// Subtract, stopping at the ends of the coordinate space.
pub fn saturating_difference(a: i32, b: i32) -> (r: i32)
    ensures
        r == saturated(a - b),
{
    saturate(a as i64 - b as i64)
}

/// A point falls inside the region these operations build: the last of them
/// that covers the point adds it.
pub open spec fn in_region(rects: Seq<RegionRect>, x: int, y: int) -> bool
    decreases rects.len(),
{
    if rects.len() == 0 {
        false
    } else if rects.last().holds(x, y) {
        rects.last().op == RegionOp::Add
    } else {
        in_region(rects.drop_last(), x, y)
    }
}

/// Whether a point falls inside the region built from these operations.
///
/// The operations are replayed in order rather than reduced to a set of
/// disjoint rectangles. Order is significant: a rectangle added after a
/// subtraction re-includes the overlapping area, so keeping adds and subtracts
/// in separate lists would get that case wrong. Replaying is exact for point
/// queries, which is all the compositor needs a region for.
pub fn region_contains(rects: &[RegionRect], x: i32, y: i32) -> (r: bool)
    ensures
        r == in_region(rects@, x as int, y as int),
{
    let mut inside = false;
    let mut i: usize = 0;
    while i < rects.len()
        invariant
            i <= rects@.len(),
            inside == in_region(rects@.take(i as int), x as int, y as int),
        decreases rects@.len() - i,
    {
        let rect = rects[i];
        assert(rects@.take(i as int + 1).drop_last() =~= rects@.take(i as int));
        if rect.contains(x, y) {
            inside = rect.op == RegionOp::Add;
        }
        i = i + 1;
    }
    assert(rects@.take(i as int) =~= rects@);
    inside
}

/// Whatever was there before, an added rectangle is in and a subtracted one is
/// out; elsewhere nothing changes.
pub proof fn law_last_operation_wins(rects: Seq<RegionRect>, rect: RegionRect, x: int, y: int)
    ensures
        in_region(rects.push(rect), x, y) == if rect.holds(x, y) {
            rect.op == RegionOp::Add
        } else {
            in_region(rects, x, y)
        },
{
    assert(rects.push(rect).drop_last() =~= rects);
}

/// A `wl_surface.set_input_region` waiting to be applied at the next commit.
#[derive(Debug)]
pub enum PendingInputRegion {
    /// The client has not set an input region since the last commit.
    Unchanged,
    /// Reset to the protocol default, where the whole surface accepts input.
    /// This is what the null region argument means.
    Infinite,
    /// Restricted to these rectangles, in surface-local coordinates.
    Rects(Vec<RegionRect>),
}

/// A pending input region, its rectangles as a sequence.
#[verifier::ext_equal]
pub enum PendingInputRegionView {
    Unchanged,
    Infinite,
    Rects(Seq<RegionRect>),
}

impl View for PendingInputRegion {
    type V = PendingInputRegionView;

    open spec fn view(&self) -> PendingInputRegionView {
        match self {
            PendingInputRegion::Unchanged => PendingInputRegionView::Unchanged,
            PendingInputRegion::Infinite => PendingInputRegionView::Infinite,
            PendingInputRegion::Rects(rects) => PendingInputRegionView::Rects(rects@),
        }
    }
}

/// A `wl_region` object.
#[derive(Debug)]
pub struct Region {
    pub client_id: u32,
    /// Add/subtract rectangles in the order the client issued them.
    pub rects: Vec<RegionRect>,
}

/// A region, its rectangles as a sequence.
#[verifier::ext_equal]
pub struct RegionView {
    pub client_id: u32,
    pub rects: Seq<RegionRect>,
}

impl View for Region {
    type V = RegionView;

    open spec fn view(&self) -> RegionView {
        RegionView { client_id: self.client_id, rects: self.rects@ }
    }
}

/// The same rectangles again.
pub fn copy_region(rects: &Vec<RegionRect>) -> (r: Vec<RegionRect>)
    ensures
        r@ == rects@,
{
    let mut r: Vec<RegionRect> = Vec::new();
    let mut i: usize = 0;
    while i < rects.len()
        invariant
            i <= rects@.len(),
            r@ == rects@.take(i as int),
        decreases rects@.len() - i,
    {
        r.push(rects[i]);
        assert(rects@.take(i as int + 1) =~= rects@.take(i as int).push(rects@[i as int]));
        i = i + 1;
    }
    assert(rects@.take(i as int) =~= rects@);
    r
}

/// What a client has asked of a surface since its last commit.
#[derive(Debug)]
pub struct SurfacePending {
    pub buffer_attached: bool,
    pub buffer_id: Option<u32>,
    /// `wl_surface.damage` rectangles, in surface-local coordinates.
    pub damage_surface: Vec<TextureRect>,
    /// `wl_surface.damage_buffer` rectangles, already in buffer coordinates.
    pub damage_buffer: Vec<TextureRect>,
    pub frame_callback: Option<u32>,
    pub presentation_feedbacks: Vec<u32>,
    pub input_region: PendingInputRegion,
    /// Pending `wl_surface.set_buffer_scale`.
    pub buffer_scale: Option<i32>,
    /// How far the attaches and offsets since the last commit move the surface.
    pub offset: (i32, i32),
}

/// What is pending on a surface, lists as sequences.
#[verifier::ext_equal]
pub struct SurfacePendingView {
    pub buffer_attached: bool,
    pub buffer_id: Option<u32>,
    pub damage_surface: Seq<TextureRect>,
    pub damage_buffer: Seq<TextureRect>,
    pub frame_callback: Option<u32>,
    pub presentation_feedbacks: Seq<u32>,
    pub input_region: PendingInputRegionView,
    pub buffer_scale: Option<i32>,
    pub offset: (i32, i32),
}

impl SurfacePendingView {
    /// Nothing is pending.
    pub open spec fn nothing() -> Self {
        SurfacePendingView {
            buffer_attached: false,
            buffer_id: None,
            damage_surface: Seq::empty(),
            damage_buffer: Seq::empty(),
            frame_callback: None,
            presentation_feedbacks: Seq::empty(),
            input_region: PendingInputRegionView::Unchanged,
            buffer_scale: None,
            offset: (0, 0),
        }
    }
}

impl View for SurfacePending {
    type V = SurfacePendingView;

    open spec fn view(&self) -> SurfacePendingView {
        SurfacePendingView {
            buffer_attached: self.buffer_attached,
            buffer_id: self.buffer_id,
            damage_surface: self.damage_surface@,
            damage_buffer: self.damage_buffer@,
            frame_callback: self.frame_callback,
            presentation_feedbacks: self.presentation_feedbacks@,
            input_region: self.input_region@,
            buffer_scale: self.buffer_scale,
            offset: self.offset,
        }
    }
}

impl SurfacePending {
    /// Nothing pending.
    pub fn nothing() -> (r: Self)
        ensures
            r@ == SurfacePendingView::nothing(),
    {
        SurfacePending {
            buffer_attached: false,
            buffer_id: None,
            damage_surface: Vec::new(),
            damage_buffer: Vec::new(),
            frame_callback: None,
            presentation_feedbacks: Vec::new(),
            input_region: PendingInputRegion::Unchanged,
            buffer_scale: None,
            offset: (0, 0),
        }
    }
}

/// A `wl_surface`.
#[derive(Debug)]
pub struct Surface {
    pub client_id: u32,
    pub buffer_id: Option<u32>,
    pub frame_callback: Option<u32>,
    pub presentation_feedbacks: Vec<u32>,
    pub pending: SurfacePending,
    pub parent: Option<u32>,
    pub children: Vec<u32>,
    pub subsurface_position: (i32, i32),
    pub subsurface_sync: bool,
    pub position: (i32, i32),
    /// How far attaches and offsets have moved the surface's content. Only the
    /// drag icon is drawn by it.
    pub offset: (i32, i32),
    /// Which parts of the surface accept pointer input, in surface-local
    /// coordinates. `None` is the protocol default: the whole surface does.
    pub input_region: Option<Vec<RegionRect>>,
    /// How many buffer pixels map to one surface-local coordinate. Clients on a
    /// scaled output submit a correspondingly larger buffer, so the surface's
    /// logical size is its buffer size divided by this. Always at least 1.
    pub buffer_scale: i32,
    /// Outputs the client has been told this surface is on, via
    /// `wl_surface.enter`. Diffed each frame so only changes are sent.
    pub entered_outputs: Vec<OutputId>,
    /// Outputs the surface is on, whether or not the client could be told.
    pub visible_on: Vec<OutputId>,
}

/// A surface, lists as sequences.
#[verifier::ext_equal]
pub struct SurfaceView {
    pub client_id: u32,
    pub buffer_id: Option<u32>,
    pub frame_callback: Option<u32>,
    pub presentation_feedbacks: Seq<u32>,
    pub pending: SurfacePendingView,
    pub parent: Option<u32>,
    pub children: Seq<u32>,
    pub subsurface_position: (i32, i32),
    pub subsurface_sync: bool,
    pub position: (i32, i32),
    pub offset: (i32, i32),
    pub input_region: Option<Seq<RegionRect>>,
    pub buffer_scale: i32,
    pub entered_outputs: Seq<OutputId>,
    pub visible_on: Seq<OutputId>,
}

impl SurfaceView {
    /// A surface that has just been created.
    pub open spec fn fresh(client_id: u32) -> Self {
        SurfaceView {
            client_id,
            buffer_id: None,
            frame_callback: None,
            presentation_feedbacks: Seq::empty(),
            pending: SurfacePendingView::nothing(),
            parent: None,
            children: Seq::empty(),
            subsurface_position: (0, 0),
            subsurface_sync: true,
            position: (0, 0),
            offset: (0, 0),
            input_region: None,
            buffer_scale: 1,
            entered_outputs: Seq::empty(),
            visible_on: Seq::empty(),
        }
    }
}

impl View for Surface {
    type V = SurfaceView;

    open spec fn view(&self) -> SurfaceView {
        SurfaceView {
            client_id: self.client_id,
            buffer_id: self.buffer_id,
            frame_callback: self.frame_callback,
            presentation_feedbacks: self.presentation_feedbacks@,
            pending: self.pending@,
            parent: self.parent,
            children: self.children@,
            subsurface_position: self.subsurface_position,
            subsurface_sync: self.subsurface_sync,
            position: self.position,
            offset: self.offset,
            input_region: match self.input_region {
                Some(rects) => Some(rects@),
                None => None,
            },
            buffer_scale: self.buffer_scale,
            entered_outputs: self.entered_outputs@,
            visible_on: self.visible_on@,
        }
    }
}

impl Surface {
    /// A surface that has just been created.
    pub fn new(client_id: u32) -> (r: Self)
        ensures
            r@ == SurfaceView::fresh(client_id),
    {
        Surface {
            client_id,
            buffer_id: None,
            frame_callback: None,
            presentation_feedbacks: Vec::new(),
            pending: SurfacePending::nothing(),
            parent: None,
            children: Vec::new(),
            subsurface_position: (0, 0),
            subsurface_sync: true,
            position: (0, 0),
            offset: (0, 0),
            input_region: None,
            buffer_scale: 1,
            entered_outputs: Vec::new(),
            visible_on: Vec::new(),
        }
    }
}

/// A rectangle in 256ths of a buffer pixel: `(x, y, width, height)`.
pub type FixedRect = (i64, i64, i64, i64);

/// A `wp_viewport` object. Sources are in 256ths of a buffer pixel.
#[derive(Debug, Clone, Copy, PartialEq, Eq)]
pub struct ViewportState {
    pub client_id: u32,
    pub surface_id: u32,
    pub source: Option<(i32, i32, i32, i32)>,
    pub destination: Option<(i32, i32)>,
    pub pending_source: Option<(i32, i32, i32, i32)>,
    pub pending_destination: Option<(i32, i32)>,
}

impl View for ViewportState {
    type V = ViewportState;

    open spec fn view(&self) -> ViewportState {
        *self
    }
}

/// How a surface's buffer maps onto the screen.
#[derive(Debug, Clone, Copy, PartialEq, Eq)]
pub struct BufferMapping {
    /// Source rectangle in 256ths of a buffer pixel: (x, y, width, height).
    pub src: FixedRect,
    /// Destination size in surface coordinates.
    pub dest_width: i32,
    pub dest_height: i32,
}

/// Which edges of a window an interactive resize is dragging.
///
/// The bit values are `xdg_toplevel.resize_edge`, passed straight through from
/// the client.
#[derive(Debug, Clone, Copy, PartialEq, Eq, Structural)]
pub struct ResizeEdges(pub u32);

/// `xdg_toplevel.resize_edge.top`
pub const EDGE_TOP: u32 = 1;

/// `xdg_toplevel.resize_edge.bottom`
pub const EDGE_BOTTOM: u32 = 2;

/// `xdg_toplevel.resize_edge.left`
pub const EDGE_LEFT: u32 = 4;

/// `xdg_toplevel.resize_edge.right`
pub const EDGE_RIGHT: u32 = 8;

impl ResizeEdges {
    pub open spec fn has(self, edge: u32) -> bool {
        self.0 & edge != 0
    }

    pub fn top(self) -> (r: bool)
        ensures
            r == self.has(EDGE_TOP),
    {
        self.0 & EDGE_TOP != 0
    }

    pub fn bottom(self) -> (r: bool)
        ensures
            r == self.has(EDGE_BOTTOM),
    {
        self.0 & EDGE_BOTTOM != 0
    }

    pub fn left(self) -> (r: bool)
        ensures
            r == self.has(EDGE_LEFT),
    {
        self.0 & EDGE_LEFT != 0
    }

    pub fn right(self) -> (r: bool)
        ensures
            r == self.has(EDGE_RIGHT),
    {
        self.0 & EDGE_RIGHT != 0
    }
}

/// What an interactive grab is doing to the window it holds.
#[derive(Debug, Clone, Copy, PartialEq, Eq)]
pub enum GrabKind {
    /// Dragging the window. The offset from pointer to window origin is held
    /// constant, so the window keeps its grip point under the cursor.
    Move { offset_x: i32, offset_y: i32 },
    /// Dragging an edge or corner. Everything is measured from where the drag
    /// began, so the window cannot drift from accumulated rounding.
    Resize {
        edges: ResizeEdges,
        start_pointer: (i64, i64),
        start_position: (i32, i32),
        start_size: (i32, i32),
        /// Last size sent to the client, so an unchanged size sends nothing.
        last_sent: (i32, i32),
    },
}

/// An interactive move or resize the compositor is driving.
///
/// While one is held the compositor owns the pointer: motion and buttons drive
/// the grab instead of reaching the client, which is what "grab" means.
#[derive(Debug, Clone, Copy, PartialEq, Eq)]
pub struct PointerGrab {
    /// The toplevel's `wl_surface`, the same key a workspace's stack uses.
    pub surface: ClientObjectId,
    /// The `xdg_toplevel` object, needed to configure a resize.
    pub toplevel: ClientObjectId,
    pub kind: GrabKind,
}

/// What an `xdg_surface` is for.
#[derive(Debug, Clone, Copy, PartialEq, Eq, Structural)]
pub enum XdgRole {
    Toplevel(u32),
    Popup(u32),
}

/// An `xdg_surface` object.
#[derive(Debug, Clone, Copy, PartialEq, Eq)]
pub struct XdgSurfaceState {
    pub client_id: u32,
    pub wl_surface_id: u32,
    pub role: Option<XdgRole>,
    pub configured: bool,
    pub geometry: Option<(i32, i32, i32, i32)>,
}

impl View for XdgSurfaceState {
    type V = XdgSurfaceState;

    open spec fn view(&self) -> XdgSurfaceState {
        *self
    }
}

/// An `xdg_toplevel` object.
#[derive(Debug)]
pub struct XdgToplevelState {
    pub client_id: u32,
    pub xdg_surface_id: u32,
    pub title: Option<String>,
    pub app_id: Option<String>,
    /// Smallest size the client says it can work at, from `set_min_size`.
    /// Zero in a dimension means it named no limit there.
    pub min_size: (i32, i32),
    /// Largest size the client says it wants, from `set_max_size`. Zero in a
    /// dimension means it named no limit there.
    pub max_size: (i32, i32),
    /// The toplevel this one is a dialog of.
    pub parent: Option<u32>,
    pub maximized: bool,
    pub fullscreen: bool,
    /// Where and how large the window was before it filled its output.
    pub restore: Option<(i32, i32, i32, i32)>,
    /// The bounds the client was last told of.
    pub sent_bounds: Option<(i32, i32)>,
}

/// A toplevel, its text as sequences.
#[verifier::ext_equal]
pub struct XdgToplevelView {
    pub client_id: u32,
    pub xdg_surface_id: u32,
    pub title: Option<Seq<char>>,
    pub app_id: Option<Seq<char>>,
    pub min_size: (i32, i32),
    pub max_size: (i32, i32),
    pub parent: Option<u32>,
    pub maximized: bool,
    pub fullscreen: bool,
    pub restore: Option<(i32, i32, i32, i32)>,
    pub sent_bounds: Option<(i32, i32)>,
}

/// What some text says.
pub open spec fn text_view(s: Option<String>) -> Option<Seq<char>> {
    match s {
        Some(s) => Some(s@),
        None => None,
    }
}

impl View for XdgToplevelState {
    type V = XdgToplevelView;

    open spec fn view(&self) -> XdgToplevelView {
        XdgToplevelView {
            client_id: self.client_id,
            xdg_surface_id: self.xdg_surface_id,
            title: text_view(self.title),
            app_id: text_view(self.app_id),
            min_size: self.min_size,
            max_size: self.max_size,
            parent: self.parent,
            maximized: self.maximized,
            fullscreen: self.fullscreen,
            restore: self.restore,
            sent_bounds: self.sent_bounds,
        }
    }
}

impl XdgToplevelView {
    /// A toplevel that has just been created.
    pub open spec fn fresh(client_id: u32, xdg_surface_id: u32) -> Self {
        XdgToplevelView {
            client_id,
            xdg_surface_id,
            title: None,
            app_id: None,
            min_size: (0, 0),
            max_size: (0, 0),
            parent: None,
            maximized: false,
            fullscreen: false,
            restore: None,
            sent_bounds: None,
        }
    }
}

impl XdgToplevelState {
    /// A toplevel that has just been created.
    pub fn new(client_id: u32, xdg_surface_id: u32) -> (r: Self)
        ensures
            r@ == XdgToplevelView::fresh(client_id, xdg_surface_id),
    {
        XdgToplevelState {
            client_id,
            xdg_surface_id,
            title: None,
            app_id: None,
            min_size: (0, 0),
            max_size: (0, 0),
            parent: None,
            maximized: false,
            fullscreen: false,
            restore: None,
            sent_bounds: None,
        }
    }
}

/// An `xdg_popup` object.
#[derive(Debug, Clone, Copy, PartialEq, Eq, Structural)]
pub struct XdgPopupState {
    pub client_id: u32,
    pub xdg_surface_id: u32,
    pub parent_xdg_surface_id: u32,
    pub x: i32,
    pub y: i32,
    pub width: i32,
    pub height: i32,
}

impl View for XdgPopupState {
    type V = XdgPopupState;

    open spec fn view(&self) -> XdgPopupState {
        *self
    }
}

/// A `wl_pointer` a client holds.
#[derive(Debug, Clone, Copy, PartialEq, Eq, Structural)]
pub struct PointerBinding {
    pub client_id: u32,
    pub object_id: u32,
}

/// A `wl_keyboard` a client holds.
#[derive(Debug, Clone, Copy, PartialEq, Eq, Structural)]
pub struct KeyboardBinding {
    pub client_id: u32,
    pub object_id: u32,
}

/// A `wl_touch` a client holds.
#[derive(Debug, Clone, Copy, PartialEq, Eq, Structural)]
pub struct TouchBinding {
    pub client_id: u32,
    pub object_id: u32,
}

/// A `wl_data_device` a client holds.
#[derive(Debug, Clone, Copy, PartialEq, Eq, Structural)]
pub struct DataDeviceBinding {
    pub client_id: u32,
    pub object_id: u32,
}

/// An object of a client that events of one kind go to.
pub trait Binding {
    /// Whose it is.
    spec fn owner(&self) -> u32;

    /// Which object it is.
    spec fn named(&self) -> u32;

    /// Whose it is, and which object.
    fn key(&self) -> (r: ClientObjectId)
        ensures
            r == (self.owner(), self.named()),
    ;
}

impl Binding for PointerBinding {
    open spec fn owner(&self) -> u32 {
        self.client_id
    }

    open spec fn named(&self) -> u32 {
        self.object_id
    }

    fn key(&self) -> (r: ClientObjectId) {
        (self.client_id, self.object_id)
    }
}

impl Binding for KeyboardBinding {
    open spec fn owner(&self) -> u32 {
        self.client_id
    }

    open spec fn named(&self) -> u32 {
        self.object_id
    }

    fn key(&self) -> (r: ClientObjectId) {
        (self.client_id, self.object_id)
    }
}

impl Binding for TouchBinding {
    open spec fn owner(&self) -> u32 {
        self.client_id
    }

    open spec fn named(&self) -> u32 {
        self.object_id
    }

    fn key(&self) -> (r: ClientObjectId) {
        (self.client_id, self.object_id)
    }
}

impl Binding for DataDeviceBinding {
    open spec fn owner(&self) -> u32 {
        self.client_id
    }

    open spec fn named(&self) -> u32 {
        self.object_id
    }

    fn key(&self) -> (r: ClientObjectId) {
        (self.client_id, self.object_id)
    }
}

/// The objects of one client, in the order they were made.
pub open spec fn objects_of<B: Binding>(bindings: Seq<B>, client_id: u32) -> Seq<u32>
    decreases bindings.len(),
{
    if bindings.len() == 0 {
        Seq::empty()
    } else {
        let rest = objects_of(bindings.drop_last(), client_id);
        if bindings.last().owner() == client_id {
            rest.push(bindings.last().named())
        } else {
            rest
        }
    }
}

/// The objects of one client, in the order they were made.
pub fn collect_objects<B: Binding>(bindings: &Vec<B>, client_id: u32) -> (r: Vec<u32>)
    ensures
        r@ == objects_of(bindings@, client_id),
{
    let mut r: Vec<u32> = Vec::new();
    let mut i: usize = 0;
    while i < bindings.len()
        invariant
            i <= bindings@.len(),
            r@ == objects_of(bindings@.take(i as int), client_id),
        decreases bindings@.len() - i,
    {
        assert(bindings@.take(i as int + 1).drop_last() =~= bindings@.take(i as int));
        let (owner, object): (u32, u32) = bindings[i].key();
        if owner == client_id {
            r.push(object);
        }
        i = i + 1;
    }
    assert(bindings@.take(i as int) =~= bindings@);
    r
}

/// Every binding but one.
pub open spec fn not_bound<B: Binding>(client_id: u32, object_id: u32) -> spec_fn(B) -> bool {
    |b: B| !(b.owner() == client_id && b.named() == object_id)
}

/// Every binding that does not belong to a client.
pub open spec fn not_of<B: Binding>(client_id: u32) -> spec_fn(B) -> bool {
    |b: B| b.owner() != client_id
}

/// Take one object out.
pub fn release_object<B: Binding + Copy>(bindings: &mut Vec<B>, client_id: u32, object_id: u32)
    ensures
        final(bindings)@ == old(bindings)@.filter(not_bound(client_id, object_id)),
{
    let ghost p = not_bound::<B>(client_id, object_id);
    let mut kept: Vec<B> = Vec::new();
    let mut i: usize = 0;
    proof {
        reveal(Seq::filter);
        assert(bindings@.take(0) =~= Seq::empty());
    }
    while i < bindings.len()
        invariant
            i <= bindings@.len(),
            bindings@ == old(bindings)@,
            p == not_bound::<B>(client_id, object_id),
            kept@ == bindings@.take(i as int).filter(p),
        decreases bindings@.len() - i,
    {
        proof {
            seqs::lemma_filter_step(bindings@, p, i as int);
        }
        let b = bindings[i];
        let (owner, object): (u32, u32) = b.key();
        if !(owner == client_id && object == object_id) {
            kept.push(b);
        }
        i = i + 1;
    }
    assert(bindings@.take(i as int) =~= bindings@);
    *bindings = kept;
}

/// Take every object of a client out.
pub fn release_client<B: Binding + Copy>(bindings: &mut Vec<B>, client_id: u32)
    ensures
        final(bindings)@ == old(bindings)@.filter(not_of(client_id)),
{
    let ghost p = not_of::<B>(client_id);
    let mut kept: Vec<B> = Vec::new();
    let mut i: usize = 0;
    proof {
        reveal(Seq::filter);
        assert(bindings@.take(0) =~= Seq::empty());
    }
    while i < bindings.len()
        invariant
            i <= bindings@.len(),
            bindings@ == old(bindings)@,
            p == not_of::<B>(client_id),
            kept@ == bindings@.take(i as int).filter(p),
        decreases bindings@.len() - i,
    {
        proof {
            seqs::lemma_filter_step(bindings@, p, i as int);
        }
        let b = bindings[i];
        let (owner, _): (u32, u32) = b.key();
        if owner != client_id {
            kept.push(b);
        }
        i = i + 1;
    }
    assert(bindings@.take(i as int) =~= bindings@);
    *bindings = kept;
}

/// Another id than one.
pub open spec fn other_id(id: u32) -> spec_fn(u32) -> bool {
    |i: u32| i != id
}

/// Take an id out of some.
pub fn remove_id(ids: &mut Vec<u32>, id: u32)
    ensures
        final(ids)@ == old(ids)@.filter(other_id(id)),
        final(ids)@.len() <= old(ids)@.len(),
{
    let ghost p = other_id(id);
    let mut kept: Vec<u32> = Vec::new();
    let mut i: usize = 0;
    proof {
        reveal(Seq::filter);
        assert(ids@.take(0) =~= Seq::empty());
    }
    while i < ids.len()
        invariant
            i <= ids@.len(),
            ids@ == old(ids)@,
            kept@.len() <= i,
            p == other_id(id),
            kept@ == ids@.take(i as int).filter(p),
        decreases ids@.len() - i,
    {
        proof {
            seqs::lemma_filter_step(ids@, p, i as int);
        }
        if ids[i] != id {
            kept.push(ids[i]);
        }
        i = i + 1;
    }
    assert(ids@.take(i as int) =~= ids@);
    *ids = kept;
}

/// Whether an id is among some.
pub fn has_id(ids: &Vec<u32>, id: u32) -> (r: bool)
    ensures
        r == ids@.contains(id),
{
    let mut i: usize = 0;
    while i < ids.len()
        invariant
            i <= ids@.len(),
            forall|j: int| 0 <= j < i ==> #[trigger] ids@[j] != id,
        decreases ids@.len() - i,
    {
        if ids[i] == id {
            assert(ids@[i as int] == id);
            return true;
        }
        i = i + 1;
    }
    false
}

/// What the seat can do.
#[derive(Debug, Clone, Copy, PartialEq, Eq, Structural)]
pub struct SeatState {
    pub has_pointer: bool,
    pub has_keyboard: bool,
    pub has_touch: bool,
}

/// What a data source has been used for.
#[derive(Debug, Clone, Copy, PartialEq, Eq, Structural)]
pub enum DataSourceRole {
    Unused,
    Selection,
    Drag,
}

/// A `wl_data_source`: what a client says it can produce.
#[derive(Debug)]
pub struct DataSource {
    pub mime_types: Vec<String>,
    pub actions: u32,
    pub role: DataSourceRole,
}

/// A data source, its mime types as sequences.
#[verifier::ext_equal]
pub struct DataSourceView {
    pub mime_types: Seq<Seq<char>>,
    pub actions: u32,
    pub role: DataSourceRole,
}

impl View for DataSource {
    type V = DataSourceView;

    open spec fn view(&self) -> DataSourceView {
        DataSourceView {
            mime_types: self.mime_types@.map_values(|m: String| m@),
            actions: self.actions,
            role: self.role,
        }
    }
}

/// What an offer is made for.
#[derive(Debug, Clone, Copy, PartialEq, Eq, Structural)]
pub enum OfferKind {
    /// The clipboard
    Selection,
    /// A drag passing over
    Drag,
    /// A drag that was dropped here and whose data is still to be read
    Dropped,
}

/// A `wl_data_offer`: the compositor's name for another client's source.
#[derive(Debug)]
pub struct DataOffer {
    pub client_id: u32,
    pub source: Option<ClientObjectId>,
    pub kind: OfferKind,
    /// The mime type the client has said it will take.
    pub accepted: Option<String>,
    pub actions: u32,
    pub preferred_action: u32,
    pub resolved_action: u32,
}

/// An offer, its text as a sequence.
#[verifier::ext_equal]
pub struct DataOfferView {
    pub client_id: u32,
    pub source: Option<ClientObjectId>,
    pub kind: OfferKind,
    pub accepted: Option<Seq<char>>,
    pub actions: u32,
    pub preferred_action: u32,
    pub resolved_action: u32,
}

impl View for DataOffer {
    type V = DataOfferView;

    open spec fn view(&self) -> DataOfferView {
        DataOfferView {
            client_id: self.client_id,
            source: self.source,
            kind: self.kind,
            accepted: text_view(self.accepted),
            actions: self.actions,
            preferred_action: self.preferred_action,
            resolved_action: self.resolved_action,
        }
    }
}

/// A drag in progress.
#[derive(Debug)]
pub struct Drag {
    /// What is being dragged, or nothing for a client dragging within itself.
    pub source: Option<ClientObjectId>,
    /// The client that started it.
    pub origin_client: u32,
    /// The surface it started on.
    pub origin: ClientObjectId,
    /// The surface drawn under the pointer for its duration.
    pub icon: Option<ClientObjectId>,
    /// The surface the drag is over.
    pub focus: Option<ClientObjectId>,
    /// The offers made to the client whose surface it is over.
    pub focus_offers: Vec<ClientObjectId>,
}

/// A drag, its offers as a sequence.
#[verifier::ext_equal]
pub struct DragView {
    pub source: Option<ClientObjectId>,
    pub origin_client: u32,
    pub origin: ClientObjectId,
    pub icon: Option<ClientObjectId>,
    pub focus: Option<ClientObjectId>,
    pub focus_offers: Seq<ClientObjectId>,
}

impl View for Drag {
    type V = DragView;

    open spec fn view(&self) -> DragView {
        DragView {
            source: self.source,
            origin_client: self.origin_client,
            origin: self.origin,
            icon: self.icon,
            focus: self.focus,
            focus_offers: self.focus_offers@,
        }
    }
}

/// A plane a client has described for a buffer it has yet to ask for.
#[derive(Debug, Clone, Copy, PartialEq, Eq, Structural)]
pub struct PendingPlane {
    pub plane: DmabufPlane,
    pub modifier: u64,
}

/// A buffer under construction.
#[derive(Debug, Clone, Copy, PartialEq, Eq, Structural)]
pub struct BufferParams {
    pub plane0: Option<PendingPlane>,
    pub plane1: Option<PendingPlane>,
    pub plane2: Option<PendingPlane>,
    pub plane3: Option<PendingPlane>,
    /// The object has been used to create a buffer.
    pub used: bool,
}

impl View for BufferParams {
    type V = BufferParams;

    open spec fn view(&self) -> BufferParams {
        *self
    }
}

/// An import the backend has still to answer.
#[derive(Debug)]
pub struct PendingImport {
    pub client_id: u32,
    pub params_id: u32,
    /// For `create_immed`: the buffer and the serial it was registered with.
    pub immediate: Option<(u32, u64)>,
    pub image: DmabufImage,
    pub width: i32,
    pub height: i32,
}

/// A pending import, lists as sequences.
#[verifier::ext_equal]
pub struct PendingImportView {
    pub client_id: u32,
    pub params_id: u32,
    pub immediate: Option<(u32, u64)>,
    pub image: DmabufImageView,
    pub width: i32,
    pub height: i32,
}

impl View for PendingImport {
    type V = PendingImportView;

    open spec fn view(&self) -> PendingImportView {
        PendingImportView {
            client_id: self.client_id,
            params_id: self.params_id,
            immediate: self.immediate,
            image: self.image@,
            width: self.width,
            height: self.height,
        }
    }
}

/// A cursor image from the system cursor theme.
#[derive(Debug)]
pub struct DefaultCursor {
    /// Pixels as `0xAARRGGBB`, row by row
    pub pixels: Vec<u32>,
    pub width: i32,
    pub height: i32,
    pub hotspot_x: i32,
    pub hotspot_y: i32,
}

/// A cursor image, its pixels as a sequence.
#[verifier::ext_equal]
pub struct DefaultCursorView {
    pub pixels: Seq<u32>,
    pub width: i32,
    pub height: i32,
    pub hotspot_x: i32,
    pub hotspot_y: i32,
}

impl View for DefaultCursor {
    type V = DefaultCursorView;

    open spec fn view(&self) -> DefaultCursorView {
        DefaultCursorView {
            pixels: self.pixels@,
            width: self.width,
            height: self.height,
            hotspot_x: self.hotspot_x,
            hotspot_y: self.hotspot_y,
        }
    }
}

} // verus!

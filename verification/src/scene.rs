//! Scene building.
//!
//! Turns compositor state into a [`Scene`]: a flat, back-to-front list of
//! textured quads in output pixel coordinates. Surface position, subsurface
//! offsets, `wp_viewport` cropping and scaling, and buffer scale all resolve
//! here into a source rectangle paired with a destination rectangle. The
//! backend turns the result into GPU work in its own thread and GL context.
//!
//! No client pixels are copied. A texture points straight into the client's
//! pool and counts as a reader of that buffer, which is what stops
//! `wl_buffer.release` going out while the backend is still reading. The
//! [`SceneCache`] therefore holds no pixels either - only enough about the last
//! frame to say what the backend already has, so damage can be expressed
//! against it.

use crate::buffers;
use crate::cursor::{self, argb_to_bytes, fallback_cursor_pixels};
use crate::objects::{
    self, saturating_difference, saturating_sum, Buffer, BufferKind, BufferKindView, BufferView,
    DmabufImage, ShmBuffer, ShmBufferView,
};
use crate::protocol::wl_shm::FORMAT_XRGB8888;
use crate::seqs;
use crate::shared::{
    self, copy_rects, output_contains, pixel_format, Output, OutputId, OutputMode, OutputView,
    PixelFormat, Scene, SceneElement, SceneElementView, SceneView, TextureId, TextureImage,
    TextureImageView, TextureSource, TextureSourceView, UploadPixels, UploadPixelsView,
    OUTPUT_MODE_CURRENT,
};
use crate::state::{self, CompositorState, CursorChoice, State};
use crate::table::{self, Table};
use crate::windows::{self, find_output};
use crate::wire::{self, fixed_to_i32};
use crate::workspace::ClientObjectId;
use vstd::prelude::*;

verus! {

/// Number of bytes for representing one pixel
pub const BYTES_PER_PIXEL: u64 = 4;

/// A choice of how to render the cursor.
#[derive(Debug, Clone, Copy, PartialEq, Eq)]
pub enum CursorPick {
    /// The focused client asked for no cursor.
    Hidden,
    /// Draw the client's own cursor surface at the given hotspot.
    Surface(ClientObjectId, i32, i32),
    /// The compositor picks: theme cursor, or the built-in one.
    Compositor,
}

/// What the cache remembers about a buffer between frames.
///
/// Metadata only. There are no pixels to keep, and counting as a reader here
/// would pin the client's buffer forever and stall its release.
#[derive(Debug, Clone, Copy, PartialEq, Eq, Structural)]
pub struct CachedImage {
    /// A unique serial number for this cached image
    pub serial: u64,
    /// Width of the cached image
    pub width: i32,
    /// Height of the cached image
    pub height: i32,
}

impl View for CachedImage {
    type V = CachedImage;

    open spec fn view(&self) -> CachedImage {
        *self
    }
}

/// What is kept between scenes.
///
/// Apart from compositor state: it is derived from it, never part of it, and
/// nothing in the protocol layer needs to know it exists. Protocol handlers
/// signal a content change by a new content serial; this compares serials and
/// re-reads only what actually moved.
pub struct SceneCache {
    /// What the backend has of each client buffer
    pub buffers: Table<ClientObjectId, CachedImage>,
    /// The cursor of the cursor theme, once it has been drawn
    pub default_cursor: Option<TextureImage>,
    /// The built-in cursor, once it has been drawn
    pub fallback_cursor: Option<TextureImage>,
    /// Serials for cursor images, which have no protocol-side content serial.
    pub next_cursor_serial: u64,
}

/// What is kept between scenes, as maps and sequences.
#[verifier::ext_equal]
pub struct CacheView {
    pub buffers: Map<ClientObjectId, CachedImage>,
    pub default_cursor: Option<TextureImageView>,
    pub fallback_cursor: Option<TextureImageView>,
    pub next_cursor_serial: u64,
}

/// What an image is.
pub open spec fn image_view(image: Option<TextureImage>) -> Option<TextureImageView> {
    match image {
        Some(i) => Some(i@),
        None => None,
    }
}

impl View for SceneCache {
    type V = CacheView;

    open spec fn view(&self) -> CacheView {
        CacheView {
            buffers: self.buffers@,
            default_cursor: image_view(self.default_cursor),
            fallback_cursor: image_view(self.fallback_cursor),
            next_cursor_serial: self.next_cursor_serial,
        }
    }
}

impl CacheView {
    /// Nothing kept yet.
    pub open spec fn empty() -> Self {
        CacheView {
            buffers: Map::empty(),
            default_cursor: None,
            fallback_cursor: None,
            next_cursor_serial: 0,
        }
    }

    /// What is kept once only live buffers are remembered.
    pub open spec fn swept(self, s: State) -> Self {
        CacheView { buffers: self.buffers.restrict(s.buffers.dom()), ..self }
    }

    /// What is kept once it is remembered how a buffer was last drawn.
    pub open spec fn remembering(self, key: ClientObjectId, b: BufferView) -> Self {
        CacheView {
            buffers: self.buffers.insert(
                key,
                CachedImage { serial: b.content_serial, width: b.width, height: b.height },
            ),
            ..self
        }
    }

    /// What a buffer's texture is a patch against, if it is one.
    pub open spec fn previous(self, key: ClientObjectId, b: BufferView) -> Option<u64> {
        if self.buffers.contains_key(key) && self.buffers[key].serial != b.content_serial {
            Some(self.buffers[key].serial)
        } else {
            None
        }
    }

    /// What changed since the copy the backend has. Nothing said means
    /// everything.
    pub open spec fn changed(self, key: ClientObjectId, b: BufferView, shm: ShmBufferView) -> Seq<
        shared::TextureRect,
    > {
        match shm.damage {
            Some(rects) if self.previous(key, b) is Some && self.buffers[key].width == b.width
                && self.buffers[key].height == b.height => rects,
            _ => Seq::empty(),
        }
    }
}

/// What has been drawn so far, and what is kept.
#[verifier::ext_equal]
pub struct Drawing {
    pub cache: CacheView,
    pub elements: Seq<SceneElementView>,
}

/// A mode that is in use.
pub open spec fn current() -> spec_fn(OutputMode) -> bool {
    |m: OutputMode| m.flags & OUTPUT_MODE_CURRENT != 0
}

/// Draw one window.
pub open spec fn drawing(s: State, origin: (i32, i32)) -> spec_fn(Drawing, ClientObjectId) -> Drawing {
    |d: Drawing, key: ClientObjectId| s.window_drawn(d, key, origin)
}

/// A number without its sign.
pub open spec fn magnitude(v: i32) -> nat {
    if v < 0 {
        (-v) as nat
    } else {
        v as nat
    }
}

/// How many bytes a buffer reaches into its pool. The last row needs no
/// padding.
pub open spec fn extent(b: BufferView, shm: ShmBufferView) -> int {
    magnitude(shm.offset) + (b.height - 1) * magnitude(shm.stride) + 4 * b.width
}

/// What a texture is read through, where it counts as a reader.
pub open spec fn reader_in(texture: TextureImageView) -> Option<u64> {
    match texture.source {
        TextureSourceView::Upload { pixels: UploadPixelsView::Mapped { guard, .. }, .. } => Some(
            guard,
        ),
        TextureSourceView::Upload { .. } => None,
        TextureSourceView::Dmabuf(_) => Some(texture.serial),
    }
}

/// Count one element's texture as a reader.
pub open spec fn reading() -> spec_fn(State, SceneElementView) -> State {
    |s: State, e: SceneElementView| s.texture_held(e.texture)
}

/// Count one element's texture as a reader no more.
pub open spec fn unreading() -> spec_fn(State, SceneElementView) -> State {
    |s: State, e: SceneElementView| s.texture_dropped(e.texture)
}

impl State {
    /// A buffer in shared memory can be drawn: it has a shape, its rows are as
    /// long as they have to be, and all of it is in its pool.
    pub open spec fn drawable(self, key: ClientObjectId, b: BufferView, shm: ShmBufferView) -> bool {
        &&& b.width > 0 && b.height > 0
        &&& self.shm_pools.contains_key((key.0, shm.pool_id))
        &&& self.shm_pools[(key.0, shm.pool_id)].mapped
        &&& magnitude(shm.stride) >= 4 * b.width
        &&& extent(b, shm) <= self.shm_pools[(key.0, shm.pool_id)].size
        &&& magnitude(shm.stride) % 4 == 0 ==> self.buffer_guards.contains_key(key)
    }

    /// Where the pixels of a buffer in shared memory are. Rows that do not
    /// begin at whole pixels have to be copied out.
    pub open spec fn pixels_of(self, key: ClientObjectId, b: BufferView, shm: ShmBufferView) -> UploadPixelsView {
        let pool = (key.0, shm.pool_id);
        let offset = magnitude(shm.offset) as u64;
        let stride = magnitude(shm.stride) as u64;
        if magnitude(shm.stride) % 4 == 0 {
            UploadPixelsView::Mapped { guard: self.buffer_guards[key], pool, offset, stride }
        } else {
            UploadPixelsView::Repacked {
                pool,
                offset,
                stride,
                row_bytes: (4 * b.width) as u64,
                height: b.height as u64,
            }
        }
    }

    /// The texture for a buffer, if it can be drawn.
    pub open spec fn texture_of(self, c: CacheView, key: ClientObjectId) -> Option<TextureImageView> {
        if !self.buffers.contains_key(key) {
            None
        } else {
            let b = self.buffers[key];
            match b.kind {
                BufferKindView::Shm(shm) => if self.drawable(key, b, shm) {
                    Some(
                        TextureImageView {
                            id: TextureId::Buffer(key.0, key.1),
                            serial: b.content_serial,
                            width: b.width,
                            height: b.height,
                            format: if shm.format == FORMAT_XRGB8888 {
                                PixelFormat::Xrgb8888
                            } else {
                                PixelFormat::Argb8888
                            },
                            source: TextureSourceView::Upload {
                                pixels: self.pixels_of(key, b, shm),
                                previous_serial: c.previous(key, b),
                                damage: c.changed(key, b, shm),
                            },
                        },
                    )
                } else {
                    None
                },
                BufferKindView::Dmabuf(image) => Some(
                    TextureImageView {
                        id: TextureId::Buffer(key.0, key.1),
                        serial: b.content_serial,
                        width: b.width,
                        height: b.height,
                        format: shared::format_of(image.fourcc),
                        source: TextureSourceView::Dmabuf(image),
                    },
                ),
                BufferKindView::Failed => None,
            }
        }
    }

    /// What is kept once a buffer has been drawn. An imported one needs
    /// nothing kept.
    pub open spec fn texture_kept(self, c: CacheView, key: ClientObjectId) -> CacheView {
        if self.buffers[key].kind is Shm {
            c.remembering(key, self.buffers[key])
        } else {
            c
        }
    }

    /// What has been drawn once a surface has, at a place.
    pub open spec fn surface_drawn(self, d: Drawing, key: ClientObjectId, x: i32, y: i32) -> Drawing {
        match (self.surfaces[key].buffer_id, self.surface_mapping(key)) {
            (Some(id), Some(m)) if self.surfaces.contains_key(key) => {
                match self.texture_of(d.cache, (key.0, id)) {
                    Some(texture) => Drawing {
                        cache: self.texture_kept(d.cache, (key.0, id)),
                        elements: d.elements.push(
                            SceneElementView {
                                texture,
                                src: m.src,
                                dst: (x, y, m.dest_width, m.dest_height),
                            },
                        ),
                    },
                    None => d,
                }
            },
            _ => d,
        }
    }

    /// What has been drawn once a surface and everything that hangs off it has,
    /// at a place.
    pub open spec fn tree_drawn(
        self,
        d: Drawing,
        key: ClientObjectId,
        x: i32,
        y: i32,
        steps: nat,
    ) -> Drawing
        decreases steps, 0nat,
    {
        if !self.surfaces.contains_key(key) {
            d
        } else {
            let d = self.surface_drawn(d, key, x, y);
            if steps > 0 {
                self.children_drawn(
                    d,
                    key.0,
                    self.surfaces[key].children,
                    x,
                    y,
                    (steps - 1) as nat,
                )
            } else {
                d
            }
        }
    }

    /// What has been drawn once everything that hangs off a surface at a place
    /// has, each behind the next.
    pub open spec fn children_drawn(
        self,
        d: Drawing,
        client_id: u32,
        children: Seq<u32>,
        x: i32,
        y: i32,
        steps: nat,
    ) -> Drawing
        decreases steps, children.len(),
    {
        if children.len() == 0 {
            d
        } else {
            let d = self.children_drawn(d, client_id, children.drop_last(), x, y, steps);
            let key = (client_id, children.last());
            if self.surfaces.contains_key(key) {
                let offset = self.surfaces[key].subsurface_position;
                self.tree_drawn(
                    d,
                    key,
                    objects::saturated(x + offset.0),
                    objects::saturated(y + offset.1),
                    steps,
                )
            } else {
                d
            }
        }
    }

    /// What has been drawn once a window has, on an output at an origin.
    pub open spec fn window_drawn(self, d: Drawing, key: ClientObjectId, origin: (i32, i32)) -> Drawing {
        if self.surfaces.contains_key(key) {
            let position = self.surfaces[key].position;
            self.tree_drawn(
                d,
                key,
                objects::saturated(position.0 - origin.0),
                objects::saturated(position.1 - origin.1),
                self.surface_count(),
            )
        } else {
            d
        }
    }

    /// Where on an output the pointer is, if it is on it.
    pub open spec fn pointer_on(self, o: OutputView) -> Option<(i32, i32)> {
        let (x, y) = self.pixel();
        if o.contains(x as int, y as int) {
            Some((objects::saturated(x - o.x), objects::saturated(y - o.y)))
        } else {
            None
        }
    }

    /// What has been drawn once the icon of a drag has.
    pub open spec fn icon_drawn(self, d: Drawing, o: OutputView) -> Drawing {
        match (self.drag, self.pointer_on(o)) {
            (Some(drag), Some((x, y))) => match drag.icon {
                Some(icon) => {
                    let offset = if self.surfaces.contains_key(icon) {
                        self.surfaces[icon].offset
                    } else {
                        (0, 0)
                    };
                    self.tree_drawn(
                        d,
                        icon,
                        objects::saturated(x + offset.0),
                        objects::saturated(y + offset.1),
                        self.surface_count(),
                    )
                },
                None => d,
            },
            _ => d,
        }
    }

    /// The cursor to draw.
    pub open spec fn cursor_picked(self) -> CursorPick {
        match self.pointer_surface {
            Some((client, _)) if self.cursor_surfaces.contains_key(client) => {
                match self.cursor_surfaces[client] {
                    CursorChoice::Hidden => CursorPick::Hidden,
                    CursorChoice::Shown { surface_id, hotspot_x, hotspot_y } => {
                        let key = (client, surface_id);
                        if self.surfaces.contains_key(key) && self.surfaces[key].buffer_id is Some {
                            CursorPick::Surface(key, hotspot_x, hotspot_y)
                        } else {
                            CursorPick::Compositor
                        }
                    },
                }
            },
            _ => CursorPick::Compositor,
        }
    }

    /// The compositor's own cursor image, and what is kept once it is known.
    pub open spec fn own_cursor(self, c: CacheView) -> (TextureImageView, CacheView) {
        let serial = buffers::serial_after(c.next_cursor_serial);
        match self.default_cursor {
            Some(cursor) => match c.default_cursor {
                Some(image) => (image, c),
                None => {
                    let image = cursor_image(
                        TextureId::DefaultCursor,
                        serial,
                        cursor.width,
                        cursor.height,
                        cursor.pixels,
                    );
                    (
                        image,
                        CacheView { default_cursor: Some(image), next_cursor_serial: serial, ..c },
                    )
                },
            },
            None => match c.fallback_cursor {
                Some(image) => (image, c),
                None => {
                    let image = cursor_image(
                        TextureId::FallbackCursor,
                        serial,
                        cursor::FALLBACK_CURSOR_WIDTH as i32,
                        cursor::FALLBACK_CURSOR_HEIGHT as i32,
                        cursor::fallback_pixels(),
                    );
                    (
                        image,
                        CacheView { fallback_cursor: Some(image), next_cursor_serial: serial, ..c },
                    )
                },
            },
        }
    }

    /// The hotspot of the compositor's own cursor.
    pub open spec fn own_hotspot(self) -> (i32, i32) {
        match self.default_cursor {
            Some(cursor) => (cursor.hotspot_x, cursor.hotspot_y),
            None => (0, 0),
        }
    }

    /// What has been drawn once the cursor has.
    pub open spec fn cursor_drawn(self, d: Drawing, o: OutputView) -> Drawing {
        match self.pointer_on(o) {
            Some((x, y)) => match self.cursor_picked() {
                CursorPick::Hidden => d,
                CursorPick::Surface(key, hotspot_x, hotspot_y) => self.surface_drawn(
                    d,
                    key,
                    objects::saturated(x - hotspot_x),
                    objects::saturated(y - hotspot_y),
                ),
                CursorPick::Compositor => {
                    let (image, cache) = self.own_cursor(d.cache);
                    let hotspot = self.own_hotspot();
                    Drawing {
                        cache,
                        elements: d.elements.push(
                            SceneElementView {
                                texture: image,
                                src: (0, 0, (256 * image.width) as i64, (256 * image.height) as i64),
                                dst: (
                                    objects::saturated(x - hotspot.0),
                                    objects::saturated(y - hotspot.1),
                                    image.width,
                                    image.height,
                                ),
                            },
                        ),
                    }
                },
            },
            None => d,
        }
    }

    /// What is drawn on an output, and what is kept: its windows, above them
    /// what is being dragged, and above that the cursor. Nothing is drawn on an
    /// output that has no mode in use.
    pub open spec fn composed(self, id: OutputId, cache: CacheView) -> Drawing {
        let d = Drawing { cache, elements: Seq::empty() };
        match self.output(id) {
            Some(o) if seqs::first(o.modes, current()) is Some => {
                let d = state::each(
                    d,
                    self.workspaces.visible_stack(id),
                    drawing(self, (o.x, o.y)),
                );
                self.cursor_drawn(self.icon_drawn(d, o), o)
            },
            _ => d,
        }
    }

    /// The state once a texture counts as a reader.
    pub open spec fn texture_held(self, texture: TextureImageView) -> Self {
        match reader_in(texture) {
            Some(guard) => self.read_begun(guard),
            None => self,
        }
    }

    /// The state once a texture counts as a reader no more.
    pub open spec fn texture_dropped(self, texture: TextureImageView) -> Self {
        match reader_in(texture) {
            Some(guard) => self.read_ended(guard),
            None => self,
        }
    }

    /// The state once everything drawn counts as being read.
    pub open spec fn elements_held(self, elements: Seq<SceneElementView>) -> Self {
        state::each(self, elements, reading())
    }

    /// The state once a scene is gone, and nothing is read on its account.
    pub open spec fn scene_dropped(self, scene: SceneView) -> Self {
        state::each(self, scene.elements, unreading())
    }
}

/// A cursor as an image. It never changes once built, so there is nothing to
/// patch and nothing to patch against.
pub open spec fn cursor_image(
    id: TextureId,
    serial: u64,
    width: i32,
    height: i32,
    pixels: Seq<u32>,
) -> TextureImageView {
    TextureImageView {
        id,
        serial,
        width,
        height,
        format: PixelFormat::Argb8888,
        source: TextureSourceView::Upload {
            pixels: UploadPixelsView::Owned(wire::words_bytes(pixels)),
            previous_serial: None,
            damage: Seq::empty(),
        },
    }
}

impl SceneCache {
    /// The cache is in order.
    pub open spec fn wf(&self) -> bool {
        self.buffers.wf()
    }

    /// A cache with nothing in it.
    pub fn new() -> (r: Self)
        ensures
            r.wf(),
            r@ == CacheView::empty(),
    {
        SceneCache {
            buffers: Table::new(),
            default_cursor: None,
            fallback_cursor: None,
            next_cursor_serial: 0,
        }
    }

    /// Whether the cache remembers no buffer.
    pub fn is_empty(&self) -> (r: bool)
        requires
            self.wf(),
        ensures
            r == (self@.buffers == Map::<ClientObjectId, CachedImage>::empty()),
    {
        let keys = self.buffers.keys();
        if keys.len() == 0 {
            assert(self@.buffers =~= Map::empty()) by {
                assert forall|k: ClientObjectId| !self@.buffers.contains_key(k) by {
                    assert(!keys@.contains(k));
                }
            }
            true
        } else {
            assert(keys@.contains(keys@[0]));
            assert(self@.buffers.contains_key(keys@[0]));
            false
        }
    }

    /// Forget buffers that no longer exist.
    ///
    /// Buffers are destroyed without the cache hearing about it, so entries are
    /// reaped against live state rather than by explicit removal.
    pub fn gc(&mut self, state: &CompositorState)
        requires
            old(self).wf(),
            state.wf(),
        ensures
            final(self).wf(),
            final(self)@ == old(self)@.swept(state@),
    {
        let keys = self.buffers.keys();
        let ghost before = self@.buffers;
        let ghost live = state@.buffers.dom();
        let mut i: usize = 0;
        while i < keys.len()
            invariant
                state.wf(),
                live == state@.buffers.dom(),
                self.wf(),
                i <= keys@.len(),
                table::lists(keys@, before.dom()),
                self@ == (CacheView { buffers: self@.buffers, ..old(self)@ }),
                forall|k: ClientObjectId| #[trigger]
                    self@.buffers.contains_key(k) ==> before.contains_key(k) && self@.buffers[k]
                        == before[k],
                forall|k: ClientObjectId| #[trigger]
                    before.contains_key(k) && live.contains(k) ==> self@.buffers.contains_key(k),
                forall|j: int|
                    0 <= j < i && !live.contains(#[trigger] keys@[j])
                        ==> !self@.buffers.contains_key(keys@[j]),
            decreases keys@.len() - i,
        {
            if !state.buffers.contains_key(keys[i]) {
                self.buffers.remove(keys[i]);
            }
            i = i + 1;
        }
        proof {
            assert forall|k: ClientObjectId| #[trigger] self@.buffers.contains_key(k) implies live.contains(
                k,
            ) by {
                assert(keys@.contains(k));
                let j = choose|j: int| 0 <= j < keys@.len() && keys@[j] == k;
                assert(keys@[j] == k);
            }
            assert(self@.buffers =~= before.restrict(live));
        }
    }
}

/// What has been drawn so far.
pub open spec fn drawn(cache: SceneCache, elements: Seq<SceneElement>) -> Drawing {
    Drawing { cache: cache@, elements: shared::elements_view(elements) }
}

/// Whether an output has a mode in use.
fn has_current_mode(output: &Output) -> (r: bool)
    ensures
        r == seqs::first(output@.modes, current()) is Some,
{
    let ghost modes = output@.modes;
    let mut i: usize = 0;
    while i < output.modes.len()
        invariant
            i <= output.modes@.len(),
            modes == output.modes@,
            forall|j: int| 0 <= j < i ==> !current()(#[trigger] modes[j]),
        decreases output.modes@.len() - i,
    {
        if output.modes[i].flags & OUTPUT_MODE_CURRENT != 0 {
            proof {
                seqs::lemma_first(modes, current(), i as int);
            }
            return true;
        }
        i = i + 1;
    }
    proof {
        seqs::lemma_first_none(modes, current());
    }
    false
}

/// Add an element on top of the others.
fn push_element(
    cache: &SceneCache,
    elements: &mut Vec<SceneElement>,
    texture: TextureImage,
    src: (i64, i64, i64, i64),
    dst: (i32, i32, i32, i32),
)
    ensures
        drawn(*cache, final(elements)@) == (Drawing {
            elements: drawn(*cache, old(elements)@).elements.push(
                SceneElementView { texture: texture@, src, dst },
            ),
            ..drawn(*cache, old(elements)@)
        }),
{
    elements.push(SceneElement { texture, src, dst });
    assert(shared::elements_view(elements@) =~= shared::elements_view(old(elements)@).push(
        SceneElementView { texture: texture@, src, dst },
    ));
}

/// A number without its sign.
fn unsigned(v: i32) -> (r: u64)
    ensures
        r == magnitude(v),
{
    if v < 0 {
        (-(v as i64)) as u64
    } else {
        v as u64
    }
}

/// How many bytes a buffer reaches into its pool.
fn buffer_extent(buffer: &Buffer, shm: &ShmBuffer) -> (r: u64)
    requires
        buffer.width > 0,
        buffer.height > 0,
    ensures
        r == extent(buffer@, shm@),
{
    let (offset, stride): (u64, u64) = (unsigned(shm.offset), unsigned(shm.stride));
    let rows: u64 = buffer.height as u64 - 1;
    assert(0 <= rows * stride <= 0x7fff_ffff * 0x8000_0000) by (nonlinear_arith)
        requires
            0 <= rows <= 0x7fff_ffff,
            0 <= stride <= 0x8000_0000,
    ;
    offset + rows * stride + BYTES_PER_PIXEL * buffer.width as u64
}

/// Describe an already-imported buffer to the backend.
///
/// Nothing is read and nothing is cached: the texture the backend builds from
/// this samples the client's own memory, so a client drawing into it changes
/// what is on screen without anything passing through here. That is also why
/// the serial never moves.
fn imported_image(key: ClientObjectId, buffer: &Buffer, image: &DmabufImage) -> (r: TextureImage)
    ensures
        r@ == (TextureImageView {
            id: TextureId::Buffer(key.0, key.1),
            serial: buffer.content_serial,
            width: buffer.width,
            height: buffer.height,
            format: shared::format_of(image.fourcc),
            source: TextureSourceView::Dmabuf(image@),
        }),
{
    TextureImage {
        id: TextureId::Buffer(key.0, key.1),
        serial: buffer.content_serial,
        width: buffer.width,
        height: buffer.height,
        format: pixel_format(image.fourcc),
        source: TextureSource::Dmabuf(image.again()),
    }
}

/// Where the pixels of a client buffer in shared memory are, if it can be
/// drawn.
///
/// GL addresses rows in whole pixels, so a stride that is not a multiple of
/// four cannot be described to it. Repacking is the only way to draw such a
/// buffer at all; no real toolkit produces one.
fn upload_pixels(state: &CompositorState, key: ClientObjectId, buffer: &Buffer, shm: &ShmBuffer) -> (r:
    Option<UploadPixels>)
    requires
        state.wf(),
    ensures
        r is Some == state@.drawable(key, buffer@, shm@),
        r matches Some(pixels) ==> pixels@ == state@.pixels_of(key, buffer@, shm@),
{
    if buffer.width <= 0 || buffer.height <= 0 {
        return None;
    }
    let pool_key: ClientObjectId = (key.0, shm.pool_id);
    let pool = match state.shm_pools.get(pool_key) {
        Some(pool) => pool,
        None => {
            return None;
        },
    };
    if !pool.mapped {
        return None;
    }
    let (offset, stride): (u64, u64) = (unsigned(shm.offset), unsigned(shm.stride));
    let row_bytes: u64 = BYTES_PER_PIXEL * buffer.width as u64;
    if stride < row_bytes {
        return None;
    }
    // It must be within the mapping or every read past it is out of bounds.
    if buffer_extent(buffer, shm) > pool.size as u64 {
        return None;
    }
    if stride % BYTES_PER_PIXEL == 0 {
        match state.buffer_guards.get(key) {
            Some(guard) => Some(
                UploadPixels::Mapped { guard: *guard, pool: pool_key, offset, stride },
            ),
            None => None,
        }
    } else {
        Some(
            UploadPixels::Repacked {
                pool: pool_key,
                offset,
                stride,
                row_bytes,
                height: buffer.height as u64,
            },
        )
    }
}

/// Build the texture for a client buffer, borrowing the client's memory.
///
/// No pixels are copied: the image points into the pool and is to count as a
/// reader of the buffer, which is what keeps `wl_buffer.release` from being
/// sent while the backend is still reading. The cache is consulted only to work
/// out what the backend already has, so damage can be expressed against it.
fn ensure_buffer_image(
    state: &CompositorState,
    cache: &mut SceneCache,
    key: ClientObjectId,
    buffer: &Buffer,
    shm: &ShmBuffer,
) -> (r: Option<TextureImage>)
    requires
        state.wf(),
        old(cache).wf(),
        state@.buffers.contains_key(key),
        buffer@ == state@.buffers[key],
        buffer@.kind == BufferKindView::Shm(shm@),
    ensures
        final(cache).wf(),
        image_view(r) == state@.texture_of(old(cache)@, key),
        final(cache)@ == if r is Some {
            old(cache)@.remembering(key, buffer@)
        } else {
            old(cache)@
        },
{
    let pixels = match upload_pixels(state, key, buffer, shm) {
        Some(pixels) => pixels,
        None => {
            return None;
        },
    };
    let previous: Option<CachedImage> = match cache.buffers.get(key) {
        Some(p) => Some(*p),
        None => None,
    };
    // Damage describes a change *from* the image the backend already holds, so
    // it is only usable if there is one and it is the same shape. A resized
    // buffer shares nothing with its predecessor even where rectangles overlap.
    let mut previous_serial: Option<u64> = None;
    let mut damage: Vec<shared::TextureRect> = Vec::new();
    if let Some(p) = previous {
        if p.serial != buffer.content_serial {
            previous_serial = Some(p.serial);
            if p.width == buffer.width && p.height == buffer.height {
                if let Some(rects) = &shm.damage {
                    damage = copy_rects(rects);
                }
            }
        }
    }
    assert(previous_serial == old(cache)@.previous(key, buffer@));
    assert(damage@ =~= old(cache)@.changed(key, buffer@, shm@));
    let format = if shm.format == FORMAT_XRGB8888 {
        PixelFormat::Xrgb8888
    } else {
        PixelFormat::Argb8888
    };
    cache.buffers.insert(
        key,
        CachedImage {
            serial: buffer.content_serial,
            width: buffer.width,
            height: buffer.height,
        },
    );
    Some(
        TextureImage {
            id: TextureId::Buffer(key.0, key.1),
            serial: buffer.content_serial,
            width: buffer.width,
            height: buffer.height,
            format,
            source: TextureSource::Upload { pixels, previous_serial, damage },
        },
    )
}

/// Build the texture for a client buffer, however its memory is held.
///
/// The one place the two kinds of buffer part company: an upload has to be
/// bounds-checked and diffed against what the backend already has, while an
/// imported one is handed over as a description and sampled where it lies.
fn ensure_image(state: &CompositorState, cache: &mut SceneCache, key: ClientObjectId) -> (r: Option<
    TextureImage,
>)
    requires
        state.wf(),
        old(cache).wf(),
    ensures
        final(cache).wf(),
        image_view(r) == state@.texture_of(old(cache)@, key),
        final(cache)@ == if r is Some {
            state@.texture_kept(old(cache)@, key)
        } else {
            old(cache)@
        },
{
    match state.buffers.get(key) {
        Some(buffer) => match &buffer.kind {
            BufferKind::Shm(shm) => ensure_buffer_image(state, cache, key, buffer, shm),
            BufferKind::Dmabuf(image) => Some(imported_image(key, buffer, image)),
            // Described, accepted, and then refused by the driver. It draws
            // nothing rather than taking the client down for its driver's
            // answer.
            BufferKind::Failed => None,
        },
        None => None,
    }
}

/// Add one surface's buffer to the scene, if it has one.
///
/// The source crop and destination size come from the same mapping the damage
/// path runs backwards, expressed here as a single quad. Clipping to the output
/// is left to the GPU.
fn push_surface(
    state: &CompositorState,
    cache: &mut SceneCache,
    elements: &mut Vec<SceneElement>,
    key: ClientObjectId,
    x: i32,
    y: i32,
)
    requires
        state.wf(),
        old(cache).wf(),
    ensures
        final(cache).wf(),
        drawn(*final(cache), final(elements)@) == state@.surface_drawn(
            drawn(*old(cache), old(elements)@),
            key,
            x,
            y,
        ),
{
    let surface = match state.surfaces.get(key) {
        Some(surface) => surface,
        None => {
            return ;
        },
    };
    let buffer_id: u32 = match surface.buffer_id {
        Some(id) => id,
        None => {
            return ;
        },
    };
    let mapping = match state.surface_buffer_mapping(key) {
        Some(mapping) => mapping,
        None => {
            return ;
        },
    };
    if let Some(texture) = ensure_image(state, cache, (key.0, buffer_id)) {
        push_element(
            cache,
            elements,
            texture,
            mapping.src,
            (x, y, mapping.dest_width, mapping.dest_height),
        );
    }
}

/// Add a surface and everything that hangs off it to the scene.
fn push_surface_tree(
    state: &CompositorState,
    cache: &mut SceneCache,
    elements: &mut Vec<SceneElement>,
    key: ClientObjectId,
    x: i32,
    y: i32,
    steps: usize,
)
    requires
        state.wf(),
        old(cache).wf(),
    ensures
        final(cache).wf(),
        drawn(*final(cache), final(elements)@) == state@.tree_drawn(
            drawn(*old(cache), old(elements)@),
            key,
            x,
            y,
            steps as nat,
        ),
    decreases steps,
{
    let surface = match state.surfaces.get(key) {
        Some(surface) => surface,
        None => {
            return ;
        },
    };
    push_surface(state, cache, elements, key, x, y);
    if steps == 0 {
        return ;
    }
    let children = &surface.children;
    let ghost start = drawn(*cache, elements@);
    let ghost fewer = (steps - 1) as nat;
    let mut i: usize = 0;
    while i < children.len()
        invariant
            state.wf(),
            cache.wf(),
            steps > 0,
            fewer == (steps - 1) as nat,
            i <= children@.len(),
            drawn(*cache, elements@) == state@.children_drawn(
                start,
                key.0,
                children@.take(i as int),
                x,
                y,
                fewer,
            ),
        decreases children@.len() - i,
    {
        assert(children@.take(i as int + 1).drop_last() =~= children@.take(i as int));
        let child_key = (key.0, children[i]);
        if let Some(child) = state.surfaces.get(child_key) {
            let (cx, cy): (i32, i32) = child.subsurface_position;
            push_surface_tree(
                state,
                cache,
                elements,
                child_key,
                saturating_sum(x, cx),
                saturating_sum(y, cy),
                steps - 1,
            );
        }
        i = i + 1;
    }
    assert(children@.take(i as int) =~= children@);
}

/// Where on an output the pointer is, if it is on it.
fn pointer_on(state: &CompositorState, output: &Output) -> (r: Option<(i32, i32)>)
    requires
        state.wf(),
    ensures
        r == state@.pointer_on(output@),
{
    let (x, y): (i32, i32) = (fixed_to_i32(state.cursor_x), fixed_to_i32(state.cursor_y));
    if output_contains(output, x, y) {
        Some(
            (
                saturating_difference(x, output.geometry.x),
                saturating_difference(y, output.geometry.y),
            ),
        )
    } else {
        None
    }
}

/// Add the icon of a drag in progress to the scene.
///
/// The icon follows the pointer, offset by whatever the client attached it
/// with. That offset is the only means a client has to position its icon - a
/// toolkit centres one under the cursor by attaching at a negative dx and dy.
///
/// Nothing has to be unwound when the drag ends: this reads the drag, so
/// clearing it stops drawing the icon on the next frame.
fn push_drag_icon(
    state: &CompositorState,
    cache: &mut SceneCache,
    elements: &mut Vec<SceneElement>,
    output: &Output,
)
    requires
        state.wf(),
        old(cache).wf(),
    ensures
        final(cache).wf(),
        drawn(*final(cache), final(elements)@) == state@.icon_drawn(
            drawn(*old(cache), old(elements)@),
            output@,
        ),
{
    let icon = match &state.drag {
        Some(drag) => match drag.icon {
            Some(icon) => icon,
            None => {
                return ;
            },
        },
        None => {
            return ;
        },
    };
    // The pointer is over one output at a time, and so is what it is carrying.
    let (x, y): (i32, i32) = match pointer_on(state, output) {
        Some(p) => p,
        None => {
            return ;
        },
    };
    let offset: (i32, i32) = match state.surfaces.get(icon) {
        Some(surface) => surface.offset,
        None => (0, 0),
    };
    // The whole tree: an icon surface can never itself be a subsurface, but it
    // may have them.
    let steps: usize = state.surfaces.len();
    push_surface_tree(
        state,
        cache,
        elements,
        icon,
        saturating_sum(x, offset.0),
        saturating_sum(y, offset.1),
        steps,
    );
}

/// Look at compositor state and decide on a mouse cursor to display
fn client_cursor(state: &CompositorState) -> (r: CursorPick)
    requires
        state.wf(),
    ensures
        r == state@.cursor_picked(),
{
    let (client, _): (u32, u32) = match state.pointer_surface {
        Some(surface) => surface,
        None => {
            return CursorPick::Compositor;
        },
    };
    match state.cursor_surfaces.get(client) {
        Some(CursorChoice::Hidden) => CursorPick::Hidden,
        Some(CursorChoice::Shown { surface_id, hotspot_x, hotspot_y }) => {
            let key = (client, *surface_id);
            // No buffer attached yet - fall back rather than show nothing.
            let shown = match state.surfaces.get(key) {
                Some(surface) => surface.buffer_id.is_some(),
                None => false,
            };
            if shown {
                CursorPick::Surface(key, *hotspot_x, *hotspot_y)
            } else {
                CursorPick::Compositor
            }
        },
        None => CursorPick::Compositor,
    }
}

/// Make an image of a cursor.
fn build_cursor_image(id: TextureId, serial: u64, width: i32, height: i32, pixels: &Vec<u32>) -> (r:
    TextureImage)
    ensures
        r@ == cursor_image(id, serial, width, height, pixels@),
{
    TextureImage {
        id,
        serial,
        width,
        height,
        format: PixelFormat::Argb8888,
        source: TextureSource::Upload {
            pixels: UploadPixels::Owned(argb_to_bytes(pixels)),
            previous_serial: None,
            damage: Vec::new(),
        },
    }
}

/// Return the compositor's own cursor image, building it on first use.
fn ensure_cursor_image(state: &CompositorState, cache: &mut SceneCache) -> (r: TextureImage)
    requires
        state.wf(),
        old(cache).wf(),
    ensures
        final(cache).wf(),
        (r@, final(cache)@) == state@.own_cursor(old(cache)@),
{
    let serial: u64 = if cache.next_cursor_serial == u64::MAX {
        u64::MAX
    } else {
        cache.next_cursor_serial + 1
    };
    match &state.default_cursor {
        Some(cursor) => {
            if let Some(image) = &cache.default_cursor {
                return image.again();
            }
            let image = build_cursor_image(
                TextureId::DefaultCursor,
                serial,
                cursor.width,
                cursor.height,
                &cursor.pixels,
            );
            cache.next_cursor_serial = serial;
            cache.default_cursor = Some(image.again());
            image
        },
        None => {
            if let Some(image) = &cache.fallback_cursor {
                return image.again();
            }
            let (width, height, pixels): (i32, i32, Vec<u32>) = fallback_cursor_pixels();
            let image = build_cursor_image(
                TextureId::FallbackCursor,
                serial,
                width,
                height,
                &pixels,
            );
            cache.next_cursor_serial = serial;
            cache.fallback_cursor = Some(image.again());
            image
        },
    }
}

/// Add the pointer cursor to the scene.
///
/// A client that has set its own cursor surface gets that; a client that asked
/// for a hidden cursor gets nothing. Otherwise the compositor draws the theme
/// cursor, or its built-in one if no theme loaded.
fn push_cursor(
    state: &CompositorState,
    cache: &mut SceneCache,
    elements: &mut Vec<SceneElement>,
    output: &Output,
)
    requires
        state.wf(),
        old(cache).wf(),
    ensures
        final(cache).wf(),
        drawn(*final(cache), final(elements)@) == state@.cursor_drawn(
            drawn(*old(cache), old(elements)@),
            output@,
        ),
{
    // The pointer is over one output at a time; the others draw no cursor.
    let (x, y): (i32, i32) = match pointer_on(state, output) {
        Some(p) => p,
        None => {
            return ;
        },
    };
    match client_cursor(state) {
        CursorPick::Hidden => {},
        CursorPick::Surface(key, hotspot_x, hotspot_y) => push_surface(
            state,
            cache,
            elements,
            key,
            saturating_difference(x, hotspot_x),
            saturating_difference(y, hotspot_y),
        ),
        CursorPick::Compositor => {
            let (hotspot_x, hotspot_y): (i32, i32) = match &state.default_cursor {
                Some(cursor) => (cursor.hotspot_x, cursor.hotspot_y),
                None => (0, 0),
            };
            let image = ensure_cursor_image(state, cache);
            let (w, h): (i32, i32) = (image.width, image.height);
            push_element(
                cache,
                elements,
                image,
                (0, 0, 256 * w as i64, 256 * h as i64),
                (
                    saturating_difference(x, hotspot_x),
                    saturating_difference(y, hotspot_y),
                    w,
                    h,
                ),
            );
        },
    }
}

/// Add the windows on an output to the scene, bottom to top.
///
/// Windows are positioned globally but drawn in the coordinates of the output
/// they are on, so everything shifts by that output's origin.
fn push_windows(
    state: &CompositorState,
    cache: &mut SceneCache,
    elements: &mut Vec<SceneElement>,
    stack: &Vec<ClientObjectId>,
    origin: (i32, i32),
)
    requires
        state.wf(),
        old(cache).wf(),
    ensures
        final(cache).wf(),
        drawn(*final(cache), final(elements)@) == state::each(
            drawn(*old(cache), old(elements)@),
            stack@,
            drawing(state@, origin),
        ),
{
    let ghost start = drawn(*cache, elements@);
    let ghost f = drawing(state@, origin);
    let steps: usize = state.surfaces.len();
    let mut i: usize = 0;
    proof {
        state::lemma_each_ends(start, stack@, f);
    }
    while i < stack.len()
        invariant
            state.wf(),
            cache.wf(),
            i <= stack@.len(),
            steps == state@.surface_count(),
            f == drawing(state@, origin),
            drawn(*cache, elements@) == state::each(start, stack@.take(i as int), f),
        decreases stack@.len() - i,
    {
        proof {
            state::lemma_each_step(start, stack@, f, i as int);
        }
        let key = stack[i];
        if let Some(surface) = state.surfaces.get(key) {
            let (x, y): (i32, i32) = surface.position;
            push_surface_tree(
                state,
                cache,
                elements,
                key,
                saturating_difference(x, origin.0),
                saturating_difference(y, origin.1),
                steps,
            );
        }
        i = i + 1;
    }
    proof {
        state::lemma_each_ends(start, stack@, f);
    }
}

/// Work out what is drawn on an output.
fn compose(output_id: OutputId, state: &CompositorState, cache: &mut SceneCache) -> (elements: Vec<
    SceneElement,
>)
    requires
        state.wf(),
        old(cache).wf(),
    ensures
        final(cache).wf(),
        drawn(*final(cache), elements@) == state@.composed(output_id, old(cache)@),
{
    let mut elements: Vec<SceneElement> = Vec::new();
    assert(drawn(*cache, elements@) =~= Drawing { cache: cache@, elements: Seq::empty() });
    if let Some(i) = find_output(&state.outputs, output_id) {
        assert(state@.outputs[i as int] == state.outputs@[i as int]@);
        let output = &state.outputs[i];
        // An output with no current mode has nothing to compose onto.
        if has_current_mode(output) {
            let origin: (i32, i32) = (output.geometry.x, output.geometry.y);
            // Only the workspace showing on this output is drawn, and it holds
            // only that output's windows. Popups and subsurfaces come along
            // with their toplevel.
            let stack = state.workspaces.visible_stack(output_id);
            push_windows(state, cache, &mut elements, &stack, origin);
            // Above every window and below the cursor: a drag icon is meant to
            // be the thing being carried, and the pointer stays on top of it.
            push_drag_icon(state, cache, &mut elements, output);
            push_cursor(state, cache, &mut elements, output);
        }
    }
    elements
}

/// What a texture is read through, where it counts as a reader.
fn reader_of_texture(texture: &TextureImage) -> (r: Option<u64>)
    ensures
        r == reader_in(texture@),
{
    match &texture.source {
        TextureSource::Upload { pixels, .. } => match pixels {
            UploadPixels::Mapped { guard, .. } => Some(*guard),
            _ => None,
        },
        TextureSource::Dmabuf(_) => Some(texture.serial),
    }
}

/// Build the scene for one output. Everything in it counts as being read, until
/// the scene is released.
pub fn build(
    output_id: OutputId,
    serial: u64,
    state: &mut CompositorState,
    cache: &mut SceneCache,
) -> (r: Scene)
    requires
        old(state).wf(),
        old(cache).wf(),
    ensures
        final(state).wf(),
        final(cache).wf(),
        r.output_id == output_id,
        r.serial == serial,
        ({
            let d = old(state)@.composed(output_id, old(cache)@);
            &&& r@.elements == d.elements
            &&& final(cache)@ == d.cache
            &&& final(state)@ == old(state)@.elements_held(d.elements)
        }),
{
    let elements = compose(output_id, state, cache);
    let ghost views = shared::elements_view(elements@);
    let ghost start = state@;
    let mut i: usize = 0;
    proof {
        state::lemma_each_ends(start, views, reading());
    }
    while i < elements.len()
        invariant
            state.wf(),
            i <= elements@.len(),
            views == shared::elements_view(elements@),
            state@ == state::each(start, views.take(i as int), reading()),
        decreases elements@.len() - i,
    {
        proof {
            state::lemma_each_step(start, views, reading(), i as int);
            assert(views[i as int] == elements@[i as int]@);
        }
        if let Some(guard) = reader_of_texture(&elements[i].texture) {
            state.begin_read(guard);
        }
        i = i + 1;
    }
    proof {
        state::lemma_each_ends(start, views, reading());
    }
    Scene { output_id, serial, elements }
}

/// Let go of a scene nobody is drawing any more.
pub fn release(state: &mut CompositorState, scene: &Scene)
    requires
        old(state).wf(),
    ensures
        final(state).wf(),
        final(state)@ == old(state)@.scene_dropped(scene@),
{
    let ghost views = scene@.elements;
    let ghost start = state@;
    let mut i: usize = 0;
    proof {
        state::lemma_each_ends(start, views, unreading());
    }
    while i < scene.elements.len()
        invariant
            state.wf(),
            i <= scene.elements@.len(),
            views == shared::elements_view(scene.elements@),
            state@ == state::each(start, views.take(i as int), unreading()),
        decreases scene.elements@.len() - i,
    {
        proof {
            state::lemma_each_step(start, views, unreading(), i as int);
            assert(views[i as int] == scene.elements@[i as int]@);
        }
        if let Some(guard) = reader_of_texture(&scene.elements[i].texture) {
            state.end_read(guard);
        }
        i = i + 1;
    }
    proof {
        state::lemma_each_ends(start, views, unreading());
    }
}

/// Some rows of a pool, one after the other without what is between them.
pub open spec fn packed_rows(bytes: Seq<u8>, offset: int, stride: int, row_bytes: int, rows: nat) -> Seq<
    u8,
>
    decreases rows,
{
    if rows == 0 {
        Seq::empty()
    } else {
        let at = offset + (rows - 1) * stride;
        packed_rows(bytes, offset, stride, row_bytes, (rows - 1) as nat) + bytes.subrange(
            at,
            at + row_bytes,
        )
    }
}

/// A row is wholly among the bytes of a pool.
pub open spec fn row_fits(len: int, offset: int, stride: int, row_bytes: int, row: int) -> bool {
    offset + row * stride + row_bytes <= len
}

/// Copy a buffer's rows out of a pool, tightly packed. Nothing comes of rows
/// that run past its end.
///
/// Only for layouts GL cannot read in place; the normal path takes no copy.
pub fn repack_rows(bytes: &[u8], offset: u64, stride: u64, row_bytes: u64, height: u64) -> (r: Option<
    Vec<u8>,
>)
    ensures
        r is Some <==> forall|row: int|
            0 <= row < height ==> #[trigger] row_fits(
                bytes@.len() as int,
                offset as int,
                stride as int,
                row_bytes as int,
                row,
            ),
        r matches Some(out) ==> out@ == packed_rows(
            bytes@,
            offset as int,
            stride as int,
            row_bytes as int,
            height as nat,
        ),
{
    let mut out: Vec<u8> = Vec::new();
    let mut y: u64 = 0;
    while y < height
        invariant
            y <= height,
            forall|row: int|
                0 <= row < y ==> #[trigger] row_fits(
                    bytes@.len() as int,
                    offset as int,
                    stride as int,
                    row_bytes as int,
                    row,
                ),
            out@ == packed_rows(
                bytes@,
                offset as int,
                stride as int,
                row_bytes as int,
                y as nat,
            ),
        decreases height - y,
    {
        assert(0 <= y * stride <= u64::MAX * u64::MAX) by (nonlinear_arith)
            requires
                0 <= y <= u64::MAX,
                0 <= stride <= u64::MAX,
        ;
        let at: u128 = y as u128 * stride as u128;
        if at > bytes.len() as u128 || at + offset as u128 + row_bytes as u128
            > bytes.len() as u128 {
            assert(!row_fits(
                bytes@.len() as int,
                offset as int,
                stride as int,
                row_bytes as int,
                y as int,
            ));
            return None;
        }
        let start: usize = (at + offset as u128) as usize;
        let end: usize = (at + offset as u128 + row_bytes as u128) as usize;
        out.extend_from_slice(vstd::slice::slice_subrange(bytes, start, end));
        assert(row_fits(
            bytes@.len() as int,
            offset as int,
            stride as int,
            row_bytes as int,
            y as int,
        ));
        y = y + 1;
        assert(out@ =~= packed_rows(
            bytes@,
            offset as int,
            stride as int,
            row_bytes as int,
            y as nat,
        ));
    }
    Some(out)
}

/// Every row of a buffer that can be drawn is in its pool.
pub proof fn law_drawable_rows_fit(
    s: State,
    key: ClientObjectId,
    b: BufferView,
    shm: ShmBufferView,
    row: int,
)
    requires
        s.drawable(key, b, shm),
        0 <= row < b.height,
    ensures
        row_fits(
            s.shm_pools[(key.0, shm.pool_id)].size as int,
            magnitude(shm.offset) as int,
            magnitude(shm.stride) as int,
            4 * b.width,
            row,
        ),
{
    let stride = magnitude(shm.stride) as int;
    assert(row * stride <= (b.height - 1) * stride) by (nonlinear_arith)
        requires
            row <= b.height - 1,
            stride >= 0,
    ;
}

/// How many of some elements are read through a guard.
pub open spec fn reads_through(elements: Seq<SceneElementView>, guard: u64) -> nat
    decreases elements.len(),
{
    if elements.len() == 0 {
        0
    } else {
        reads_through(elements.drop_last(), guard) + if reader_in(elements.last().texture) == Some(
            guard,
        ) {
            1nat
        } else {
            0
        }
    }
}

impl State {
    /// How many are reading through a guard.
    pub open spec fn readers(self, guard: u64) -> nat {
        if self.buffer_readers.contains_key(guard) {
            self.buffer_readers[guard] as nat
        } else {
            0
        }
    }

    /// Nobody is entered for a guard nobody reads through.
    pub open spec fn readers_counted(self) -> bool {
        forall|guard: u64|
            self.buffer_readers.contains_key(guard) ==> #[trigger] self.buffer_readers[guard] > 0
    }
}

/// Everything drawn is counted.
proof fn lemma_elements_held(s: State, elements: Seq<SceneElementView>)
    requires
        s.readers_counted(),
        forall|g: u64| #[trigger] s.readers(g) + reads_through(elements, g) < u32::MAX,
    ensures
        ({
            let r = s.elements_held(elements);
            &&& r == State { buffer_readers: r.buffer_readers, ..s }
            &&& r.readers_counted()
            &&& forall|g: u64| #[trigger]
                r.readers(g) == s.readers(g) + reads_through(elements, g)
        }),
    decreases elements.len(),
{
    if elements.len() > 0 {
        let rest = elements.drop_last();
        assert forall|g: u64| #[trigger] s.readers(g) + reads_through(rest, g) < u32::MAX by {
            assert(s.readers(g) + reads_through(elements, g) < u32::MAX);
        }
        lemma_elements_held(s, rest);
        let before = s.elements_held(rest);
        let r = s.elements_held(elements);
        match reader_in(elements.last().texture) {
            Some(guard) => {
                assert(r == before.read_begun(guard));
                assert(s.readers(guard) + reads_through(elements, guard) < u32::MAX);
                assert(before.readers(guard) == s.readers(guard) + reads_through(rest, guard));
                assert forall|g: u64| #[trigger] r.readers(g) == s.readers(g) + reads_through(
                    elements,
                    g,
                ) by {
                    assert(before.readers(g) == s.readers(g) + reads_through(rest, g));
                }
            },
            None => {
                assert forall|g: u64| #[trigger] r.readers(g) == s.readers(g) + reads_through(
                    elements,
                    g,
                ) by {
                    assert(before.readers(g) == s.readers(g) + reads_through(rest, g));
                }
            },
        }
    }
}

/// Everything that goes is counted no more.
proof fn lemma_elements_dropped(s: State, elements: Seq<SceneElementView>)
    requires
        s.readers_counted(),
        forall|g: u64| #[trigger] s.readers(g) >= reads_through(elements, g),
        forall|i: int|
            0 <= i < elements.len() ==> (reader_in((#[trigger] elements[i]).texture) matches Some(g)
                ==> !s.retired_images.contains_key(g)),
    ensures
        ({
            let r = state::each(s, elements, unreading());
            &&& r == State { buffer_readers: r.buffer_readers, ..s }
            &&& r.readers_counted()
            &&& forall|g: u64| #[trigger]
                r.readers(g) == s.readers(g) - reads_through(elements, g)
        }),
    decreases elements.len(),
{
    if elements.len() > 0 {
        let rest = elements.drop_last();
        assert forall|g: u64| #[trigger] s.readers(g) >= reads_through(rest, g) by {
            assert(s.readers(g) >= reads_through(elements, g));
        }
        assert forall|i: int| 0 <= i < rest.len() implies (reader_in(
            (#[trigger] rest[i]).texture,
        ) matches Some(g) ==> !s.retired_images.contains_key(g)) by {
            assert(rest[i] == elements[i]);
        }
        lemma_elements_dropped(s, rest);
        let before = state::each(s, rest, unreading());
        let r = state::each(s, elements, unreading());
        let last = elements[elements.len() - 1];
        match reader_in(last.texture) {
            Some(guard) => {
                assert(r == before.read_ended(guard));
                assert(!s.retired_images.contains_key(guard));
                assert(s.readers(guard) >= reads_through(elements, guard));
                assert(before.readers(guard) == s.readers(guard) - reads_through(rest, guard));
                assert(before.buffer_readers[guard] > 0);
                assert forall|g: u64| #[trigger] r.readers(g) == s.readers(g) - reads_through(
                    elements,
                    g,
                ) by {
                    assert(before.readers(g) == s.readers(g) - reads_through(rest, g));
                }
                assert forall|g: u64| r.buffer_readers.contains_key(g) implies #[trigger]
                    r.buffer_readers[g] > 0 by {
                    assert(before.buffer_readers[g] > 0);
                }
            },
            None => {
                assert forall|g: u64| #[trigger] r.readers(g) == s.readers(g) - reads_through(
                    elements,
                    g,
                ) by {
                    assert(before.readers(g) == s.readers(g) - reads_through(rest, g));
                }
            },
        }
    }
}

/// While a frame is there, everything drawn in it counts as being read; once it
/// has gone, everything is as it was before.
pub proof fn law_a_frame_reads_until_it_goes(s: State, scene: SceneView, guard: u64)
    requires
        s.readers_counted(),
        forall|g: u64| #[trigger] s.readers(g) + reads_through(scene.elements, g) < u32::MAX,
        forall|i: int|
            0 <= i < scene.elements.len() ==> (reader_in(
                (#[trigger] scene.elements[i]).texture,
            ) matches Some(g) ==> !s.retired_images.contains_key(g)),
    ensures
        reads_through(scene.elements, guard) > 0 ==> s.elements_held(
            scene.elements,
        ).buffer_readers.contains_key(guard),
        s.elements_held(scene.elements).scene_dropped(scene) == s,
{
    let held = s.elements_held(scene.elements);
    lemma_elements_held(s, scene.elements);
    assert(held.readers(guard) == s.readers(guard) + reads_through(scene.elements, guard));
    assert forall|g: u64| #[trigger] held.readers(g) >= reads_through(scene.elements, g) by {}
    assert(held.retired_images == s.retired_images);
    lemma_elements_dropped(held, scene.elements);
    let gone = held.scene_dropped(scene);
    assert(gone.buffer_readers =~= s.buffer_readers) by {
        assert forall|g: u64| gone.readers(g) == #[trigger] s.readers(g) by {
            assert(held.readers(g) == s.readers(g) + reads_through(scene.elements, g));
            assert(gone.readers(g) == held.readers(g) - reads_through(scene.elements, g));
        }
        assert forall|g: u64| #[trigger] gone.buffer_readers.contains_key(g)
            == s.buffer_readers.contains_key(g) by {
            assert(gone.readers(g) == s.readers(g));
            if gone.buffer_readers.contains_key(g) {
                assert(gone.buffer_readers[g] > 0);
            }
            if s.buffer_readers.contains_key(g) {
                assert(s.buffer_readers[g] > 0);
            }
        }
        assert forall|g: u64| gone.buffer_readers.contains_key(g) implies
            #[trigger] gone.buffer_readers[g] == s.buffer_readers[g] by {
            assert(gone.readers(g) == s.readers(g));
        }
    }
    assert(gone == s);
}

impl Drawing {
    /// Everything drawn is a client's.
    pub open spec fn of_clients(self) -> bool {
        forall|i: int|
            0 <= i < self.elements.len() ==> (#[trigger] self.elements[i]).texture.id is Buffer
    }
}

/// Drawing surfaces draws nothing but what is clients'.
proof fn lemma_tree_of_clients(s: State, d: Drawing, key: ClientObjectId, x: i32, y: i32, steps: nat)
    requires
        d.of_clients(),
    ensures
        s.tree_drawn(d, key, x, y, steps).of_clients(),
    decreases steps, 0nat,
{
    if s.surfaces.contains_key(key) && steps > 0 {
        lemma_children_of_clients(
            s,
            s.surface_drawn(d, key, x, y),
            key.0,
            s.surfaces[key].children,
            x,
            y,
            (steps - 1) as nat,
        );
    }
}

proof fn lemma_children_of_clients(
    s: State,
    d: Drawing,
    client_id: u32,
    children: Seq<u32>,
    x: i32,
    y: i32,
    steps: nat,
)
    requires
        d.of_clients(),
    ensures
        s.children_drawn(d, client_id, children, x, y, steps).of_clients(),
    decreases steps, children.len(),
{
    if children.len() > 0 {
        lemma_children_of_clients(s, d, client_id, children.drop_last(), x, y, steps);
        let before = s.children_drawn(d, client_id, children.drop_last(), x, y, steps);
        let key = (client_id, children.last());
        if s.surfaces.contains_key(key) {
            let offset = s.surfaces[key].subsurface_position;
            lemma_tree_of_clients(
                s,
                before,
                key,
                objects::saturated(x + offset.0),
                objects::saturated(y + offset.1),
                steps,
            );
        }
    }
}

/// What is drawn on an output before the cursor is.
pub open spec fn below_the_cursor(s: State, o: OutputView, cache: CacheView) -> Drawing {
    s.icon_drawn(
        state::each(
            Drawing { cache, elements: Seq::empty() },
            s.workspaces.visible_stack(o.id),
            drawing(s, (o.x, o.y)),
        ),
        o,
    )
}

proof fn lemma_below_the_cursor(s: State, o: OutputView, cache: CacheView)
    ensures
        below_the_cursor(s, o, cache).of_clients(),
{
    let inv = |d: Drawing| d.of_clients();
    let f = drawing(s, (o.x, o.y));
    let start = Drawing { cache, elements: Seq::empty() };
    assert forall|d: Drawing, key: ClientObjectId| inv(d) implies inv(#[trigger] f(d, key)) by {
        if s.surfaces.contains_key(key) {
            let position = s.surfaces[key].position;
            lemma_tree_of_clients(
                s,
                d,
                key,
                objects::saturated(position.0 - o.x),
                objects::saturated(position.1 - o.y),
                s.surface_count(),
            );
        }
    }
    state::lemma_each_keeps(start, s.workspaces.visible_stack(o.id), f, inv);
    let windows = state::each(start, s.workspaces.visible_stack(o.id), f);
    match (s.drag, s.pointer_on(o)) {
        (Some(drag), Some((x, y))) => match drag.icon {
            Some(icon) => {
                let offset = if s.surfaces.contains_key(icon) {
                    s.surfaces[icon].offset
                } else {
                    (0, 0)
                };
                lemma_tree_of_clients(
                    s,
                    windows,
                    icon,
                    objects::saturated(x + offset.0),
                    objects::saturated(y + offset.1),
                    s.surface_count(),
                );
            },
            None => {},
        },
        _ => {},
    }
}

/// The compositor's own cursor is drawn on an output only where the pointer is
/// on it and no client has a cursor of its own in its place, and it is drawn on
/// top of everything else.
pub proof fn law_the_cursor_is_on_top_where_the_pointer_is(
    s: State,
    id: OutputId,
    cache: CacheView,
    i: int,
)
    requires
        s.output(id) is Some,
        0 <= i < s.composed(id, cache).elements.len(),
        s.composed(id, cache).elements[i].texture.id !is Buffer,
    ensures
        i == s.composed(id, cache).elements.len() - 1,
        s.pointer_on(s.output(id).unwrap()) is Some,
        s.cursor_picked() is Compositor,
{
    let o = s.output(id).unwrap();
    seqs::lemma_first_holds(s.outputs, windows::named(id));
    assert(o.id == id);
    lemma_below_the_cursor(s, o, cache);
    let below = below_the_cursor(s, o, cache);
    if i < below.elements.len() {
        assert(below.elements[i].texture.id is Buffer);
    }
}

/// A client that hides the cursor has it hidden: nothing is drawn that is not a
/// client's.
pub proof fn law_a_hidden_cursor_is_not_drawn(s: State, id: OutputId, cache: CacheView, i: int)
    requires
        s.cursor_picked() is Hidden,
        0 <= i < s.composed(id, cache).elements.len(),
    ensures
        s.composed(id, cache).elements[i].texture.id is Buffer,
{
    if s.output(id) is Some {
        let o = s.output(id).unwrap();
        seqs::lemma_first_holds(s.outputs, windows::named(id));
        assert(o.id == id);
        lemma_below_the_cursor(s, o, cache);
    }
}

} // verus!

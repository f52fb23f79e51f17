//! What passes between the compositor and the backend driving it.
//!
//! Belongs to neither: outputs and their geometry, input events, and the
//! numbers both sides have to agree on.

use crate::dmabuf::DRM_FORMAT_XRGB8888;
use crate::objects::{DmabufImage, DmabufImageView};
use crate::table::Key;
use vstd::prelude::*;

verus! {

/// What is drawn where nothing else is, as `0xAARRGGBB`.
pub const BACKGROUND_COLOR: u32 = 0xff1a_1a2e;

/// A rendered image, row by row, for presenting composited output.
pub struct RenderFrame {
    /// The pixels, as `0xAARRGGBB`
    pub pixels: Vec<u32>,
    /// How many pixels make a row
    pub width: u32,
    /// How many rows there are
    pub height: u32,
}

/// A mouse button the compositor knows.
#[derive(Debug, Clone, Copy, PartialEq, Eq, Structural)]
pub enum MouseButton {
    Left,
    Right,
    Middle,
}

/// Whether a button went down or up.
#[derive(Debug, Clone, Copy, PartialEq, Eq, Structural)]
pub enum ButtonState {
    Pressed,
    Released,
}

/// Whether a key went down or up.
#[derive(Debug, Clone, Copy, PartialEq, Eq, Structural)]
pub enum KeyState {
    Pressed,
    Released,
}

/// What a scroll was made with.
#[derive(Debug, Clone, Copy, PartialEq, Eq, Structural)]
pub enum ScrollSource {
    Wheel,
    Finger,
}

/// When a frame reached the screen, on the monotonic clock.
#[derive(Debug, Clone, Copy, PartialEq, Eq, Structural)]
pub struct PresentedAt {
    /// Whole seconds
    pub tv_sec: i64,
    /// Nanoseconds past the second
    pub tv_nsec: i64,
}

/// A unique output id.
#[derive(Debug, Clone, Copy, PartialEq, Eq, Hash, Structural)]
pub struct OutputId(pub u32);

impl Key for OutputId {
    open spec fn rank(self) -> int {
        self.0 as int
    }

    proof fn rank_names(a: Self, b: Self) {
    }

    fn before(&self, other: &Self) -> (r: bool) {
        self.0 < other.0
    }

    fn again(&self) -> (r: Self) {
        *self
    }
}

/// `wl_output.subpixel`: how a display lays its subpixels out.
#[derive(Debug, Clone, Copy, PartialEq, Eq, Structural)]
pub enum OutputSubpixel {
    Unknown,
    NoSubpixels,
    HorizontalRgb,
    HorizontalBgr,
    VerticalRgb,
    VerticalBgr,
}

/// `wl_output.transform`: how a display is turned.
#[derive(Debug, Clone, Copy, PartialEq, Eq, Structural)]
pub enum OutputTransform {
    Normal,
    Rotated90,
    Rotated180,
    Rotated270,
    Flipped,
    Flipped90,
    Flipped180,
    Flipped270,
}

/// The mode a display is in.
pub const OUTPUT_MODE_CURRENT: u32 = 1;

/// The mode a display would rather be in.
pub const OUTPUT_MODE_PREFERRED: u32 = 2;

/// One of the modes a display can be in.
#[derive(Debug, Clone, Copy, PartialEq, Eq, Structural)]
pub struct OutputMode {
    /// [`OUTPUT_MODE_CURRENT`] and [`OUTPUT_MODE_PREFERRED`]
    pub flags: u32,
    /// Width in pixels
    pub width: i32,
    /// Height in pixels
    pub height: i32,
    /// Refreshes per thousand seconds
    pub refresh_mhz: i32,
}

/// Where a display is and what it is.
#[derive(Debug)]
pub struct OutputGeometry {
    /// Left edge in the global coordinate space
    pub x: i32,
    /// Top edge in the global coordinate space
    pub y: i32,
    /// How wide the display is
    pub physical_width: i32,
    /// How high the display is
    pub physical_height: i32,
    /// Subpixel layout
    pub subpixel: OutputSubpixel,
    /// Who made it
    pub make: String,
    /// Which one they call it
    pub model: String,
    /// How it is turned
    pub transform: OutputTransform,
}

/// A display.
#[derive(Debug)]
pub struct Output {
    /// The output id
    pub id: OutputId,
    /// A name fit to configure by
    pub name: String,
    /// A name fit to read
    pub description: String,
    /// Where it is and what it is
    pub geometry: OutputGeometry,
    /// What modes it has
    pub modes: Vec<OutputMode>,
    /// Buffer pixels per logical pixel it would like to see
    pub scale: i32,
}

/// What an output is, its text as characters and its modes as a sequence.
#[verifier::ext_equal]
pub struct OutputView {
    pub id: OutputId,
    pub name: Seq<char>,
    pub description: Seq<char>,
    pub x: i32,
    pub y: i32,
    pub width: i32,
    pub height: i32,
    pub subpixel: OutputSubpixel,
    pub make: Seq<char>,
    pub model: Seq<char>,
    pub transform: OutputTransform,
    pub modes: Seq<OutputMode>,
    pub scale: i32,
}

impl View for Output {
    type V = OutputView;

    open spec fn view(&self) -> OutputView {
        OutputView {
            id: self.id,
            name: self.name@,
            description: self.description@,
            x: self.geometry.x,
            y: self.geometry.y,
            width: self.geometry.physical_width,
            height: self.geometry.physical_height,
            subpixel: self.geometry.subpixel,
            make: self.geometry.make@,
            model: self.geometry.model@,
            transform: self.geometry.transform,
            modes: self.modes@,
            scale: self.scale,
        }
    }
}

impl OutputView {
    /// A point in the global coordinate space falls on this output.
    pub open spec fn contains(self, x: int, y: int) -> bool {
        self.x <= x < self.x + self.width && self.y <= y < self.y + self.height
    }

    /// There is somewhere on this output for a pointer to be.
    pub open spec fn has_area(self) -> bool {
        self.width > 0 && self.height > 0
    }
}

/// What some outputs are.
pub open spec fn outputs_view(outputs: Seq<Output>) -> Seq<OutputView> {
    outputs.map_values(|o: Output| o@)
}

/// Whether a point in the global coordinate space falls on an output.
pub fn output_contains(output: &Output, x: i32, y: i32) -> (r: bool)
    ensures
        r == output@.contains(x as int, y as int),
{
    let g = &output.geometry;
    let (x, y): (i64, i64) = (x as i64, y as i64);
    let (x0, y0): (i64, i64) = (g.x as i64, g.y as i64);
    x >= x0 && y >= y0 && x < x0 + g.physical_width as i64 && y < y0 + g.physical_height as i64
}

/// The positions a pointer can take on an output, as `(left, top, right,
/// bottom)` in 256ths of a pixel, both ends included. `None` for an output with
/// no area to point at.
pub fn cursor_bounds(output: &Output) -> (r: Option<(i64, i64, i64, i64)>)
    ensures
        r == cursor_range(output@),
{
    let g = &output.geometry;
    if g.physical_width <= 0 || g.physical_height <= 0 {
        return None;
    }
    let (x0, y0): (i64, i64) = (g.x as i64, g.y as i64);
    Some(
        (
            x0 * 256,
            y0 * 256,
            (x0 + g.physical_width as i64 - 1) * 256,
            (y0 + g.physical_height as i64 - 1) * 256,
        ),
    )
}

/// The first to the last pixel of an output in each direction, in 256ths.
pub open spec fn cursor_range(o: OutputView) -> Option<(i64, i64, i64, i64)> {
    if o.has_area() {
        Some(
            (
                (o.x * 256) as i64,
                (o.y * 256) as i64,
                ((o.x + o.width - 1) * 256) as i64,
                ((o.y + o.height - 1) * 256) as i64,
            ),
        )
    } else {
        None
    }
}

/// A rectangle of texture pixels.
#[derive(Debug, Clone, Copy, PartialEq, Eq, Structural)]
pub struct TextureRect {
    pub x: i32,
    pub y: i32,
    pub width: i32,
    pub height: i32,
}

impl View for TextureRect {
    type V = TextureRect;

    open spec fn view(&self) -> TextureRect {
        *self
    }
}

/// How the four bytes of a pixel are to be taken.
#[derive(Debug, Clone, Copy, PartialEq, Eq, Structural)]
pub enum PixelFormat {
    /// Premultiplied alpha
    Argb8888,
    /// No alpha: the fourth byte is undefined
    Xrgb8888,
}

/// How the pixels of a DRM format are to be taken.
pub open spec fn format_of(fourcc: u32) -> PixelFormat {
    if fourcc == DRM_FORMAT_XRGB8888 {
        PixelFormat::Xrgb8888
    } else {
        PixelFormat::Argb8888
    }
}

/// How the pixels of a DRM format are to be taken.
pub fn pixel_format(fourcc: u32) -> (r: PixelFormat)
    ensures
        r == format_of(fourcc),
{
    if fourcc == DRM_FORMAT_XRGB8888 {
        PixelFormat::Xrgb8888
    } else {
        PixelFormat::Argb8888
    }
}

/// What a texture is of.
#[derive(Debug, Clone, Copy, PartialEq, Eq, Hash, Structural)]
pub enum TextureId {
    /// A buffer of a client
    Buffer(u32, u32),
    /// The cursor of the system's cursor theme
    DefaultCursor,
    /// The built-in cursor
    FallbackCursor,
}

/// Where the pixels of a texture that has to be uploaded are.
#[derive(Debug)]
pub enum UploadPixels {
    /// In a client's pool, row after row, where they are read through a guard
    Mapped { guard: u64, pool: (u32, u32), offset: u64, stride: u64 },
    /// In a client's pool, in rows that cannot be read where they are and have
    /// to be copied out first
    Repacked { pool: (u32, u32), offset: u64, stride: u64, row_bytes: u64, height: u64 },
    /// Here
    Owned(Vec<u8>),
}

/// Where pixels are, bytes as a sequence.
#[verifier::ext_equal]
pub enum UploadPixelsView {
    Mapped { guard: u64, pool: (u32, u32), offset: u64, stride: u64 },
    Repacked { pool: (u32, u32), offset: u64, stride: u64, row_bytes: u64, height: u64 },
    Owned(Seq<u8>),
}

impl View for UploadPixels {
    type V = UploadPixelsView;

    open spec fn view(&self) -> UploadPixelsView {
        match *self {
            UploadPixels::Mapped { guard, pool, offset, stride } => UploadPixelsView::Mapped {
                guard,
                pool,
                offset,
                stride,
            },
            UploadPixels::Repacked { pool, offset, stride, row_bytes, height } => {
                UploadPixelsView::Repacked { pool, offset, stride, row_bytes, height }
            },
            UploadPixels::Owned(bytes) => UploadPixelsView::Owned(bytes@),
        }
    }
}

/// How the backend gets at a texture's pixels.
#[derive(Debug)]
pub enum TextureSource {
    /// They are uploaded: all of them, or only what changed since a copy the
    /// backend already has.
    Upload {
        pixels: UploadPixels,
        /// The serial of the copy this is a patch against, if it is one
        previous_serial: Option<u64>,
        /// What changed since that copy. Nothing said means everything.
        damage: Vec<TextureRect>,
    },
    /// They are sampled where they lie.
    Dmabuf(DmabufImage),
}

/// How the backend gets at pixels, lists as sequences.
#[verifier::ext_equal]
pub enum TextureSourceView {
    Upload { pixels: UploadPixelsView, previous_serial: Option<u64>, damage: Seq<TextureRect> },
    Dmabuf(DmabufImageView),
}

impl View for TextureSource {
    type V = TextureSourceView;

    open spec fn view(&self) -> TextureSourceView {
        match *self {
            TextureSource::Upload { pixels, previous_serial, damage } => TextureSourceView::Upload {
                pixels: pixels@,
                previous_serial,
                damage: damage@,
            },
            TextureSource::Dmabuf(image) => TextureSourceView::Dmabuf(image@),
        }
    }
}

/// An image for the backend to make a texture of.
#[derive(Debug)]
pub struct TextureImage {
    pub id: TextureId,
    /// Changes whenever the pixels do
    pub serial: u64,
    pub width: i32,
    pub height: i32,
    pub format: PixelFormat,
    pub source: TextureSource,
}

/// An image, lists as sequences.
#[verifier::ext_equal]
pub struct TextureImageView {
    pub id: TextureId,
    pub serial: u64,
    pub width: i32,
    pub height: i32,
    pub format: PixelFormat,
    pub source: TextureSourceView,
}

impl View for TextureImage {
    type V = TextureImageView;

    open spec fn view(&self) -> TextureImageView {
        TextureImageView {
            id: self.id,
            serial: self.serial,
            width: self.width,
            height: self.height,
            format: self.format,
            source: self.source@,
        }
    }
}

/// One textured rectangle.
#[derive(Debug)]
pub struct SceneElement {
    pub texture: TextureImage,
    /// The part of the texture shown, in 256ths of a pixel: (x, y, width,
    /// height)
    pub src: (i64, i64, i64, i64),
    /// Where on the output it is shown: (x, y, width, height)
    pub dst: (i32, i32, i32, i32),
}

/// One textured rectangle, lists as sequences.
#[verifier::ext_equal]
pub struct SceneElementView {
    pub texture: TextureImageView,
    pub src: (i64, i64, i64, i64),
    pub dst: (i32, i32, i32, i32),
}

impl View for SceneElement {
    type V = SceneElementView;

    open spec fn view(&self) -> SceneElementView {
        SceneElementView { texture: self.texture@, src: self.src, dst: self.dst }
    }
}

/// Everything to draw on an output, back to front.
#[derive(Debug)]
pub struct Scene {
    pub output_id: OutputId,
    /// Rises with every scene composed
    pub serial: u64,
    pub elements: Vec<SceneElement>,
}

/// Everything to draw on an output, as sequences.
#[verifier::ext_equal]
pub struct SceneView {
    pub output_id: OutputId,
    pub serial: u64,
    pub elements: Seq<SceneElementView>,
}

/// What some elements are.
pub open spec fn elements_view(elements: Seq<SceneElement>) -> Seq<SceneElementView> {
    elements.map_values(|e: SceneElement| e@)
}

impl View for Scene {
    type V = SceneView;

    open spec fn view(&self) -> SceneView {
        SceneView {
            output_id: self.output_id,
            serial: self.serial,
            elements: elements_view(self.elements@),
        }
    }
}

/// Copy some bytes.
fn copy_bytes(bytes: &Vec<u8>) -> (r: Vec<u8>)
    ensures
        r@ == bytes@,
{
    let mut r: Vec<u8> = Vec::new();
    r.extend_from_slice(bytes.as_slice());
    assert(r@ =~= bytes@);
    r
}

/// Copy some rectangles.
pub fn copy_rects(rects: &Vec<TextureRect>) -> (r: Vec<TextureRect>)
    ensures
        r@ == rects@,
{
    let mut r: Vec<TextureRect> = Vec::new();
    let mut i: usize = 0;
    while i < rects.len()
        invariant
            i <= rects@.len(),
            r@ == rects@.take(i as int),
        decreases rects@.len() - i,
    {
        r.push(rects[i]);
        assert(r@ =~= rects@.take(i as int + 1));
        i = i + 1;
    }
    assert(r@ =~= rects@);
    r
}

impl UploadPixels {
    /// The same pixels again.
    pub fn again(&self) -> (r: Self)
        ensures
            r@ == self@,
    {
        match self {
            UploadPixels::Mapped { guard, pool, offset, stride } => UploadPixels::Mapped {
                guard: *guard,
                pool: *pool,
                offset: *offset,
                stride: *stride,
            },
            UploadPixels::Repacked { pool, offset, stride, row_bytes, height } => {
                UploadPixels::Repacked {
                    pool: *pool,
                    offset: *offset,
                    stride: *stride,
                    row_bytes: *row_bytes,
                    height: *height,
                }
            },
            UploadPixels::Owned(bytes) => UploadPixels::Owned(copy_bytes(bytes)),
        }
    }
}

impl TextureImage {
    /// The same image again.
    pub fn again(&self) -> (r: Self)
        ensures
            r@ == self@,
    {
        let source = match &self.source {
            TextureSource::Upload { pixels, previous_serial, damage } => TextureSource::Upload {
                pixels: pixels.again(),
                previous_serial: *previous_serial,
                damage: copy_rects(damage),
            },
            TextureSource::Dmabuf(image) => TextureSource::Dmabuf(image.again()),
        };
        TextureImage {
            id: self.id,
            serial: self.serial,
            width: self.width,
            height: self.height,
            format: self.format,
            source,
        }
    }
}

impl Scene {
    /// The same scene again.
    pub fn again(&self) -> (r: Self)
        ensures
            r@ == self@,
    {
        let mut elements: Vec<SceneElement> = Vec::new();
        let mut i: usize = 0;
        while i < self.elements.len()
            invariant
                i <= self.elements@.len(),
                elements@.len() == i,
                forall|j: int| 0 <= j < i ==> (#[trigger] elements@[j])@ == self.elements@[j]@,
            decreases self.elements@.len() - i,
        {
            let e = &self.elements[i];
            elements.push(SceneElement { texture: e.texture.again(), src: e.src, dst: e.dst });
            i = i + 1;
        }
        assert(elements_view(elements@) =~= elements_view(self.elements@));
        Scene { output_id: self.output_id, serial: self.serial, elements }
    }
}

} // verus!

//! dma-bufs: which formats can be offered to clients, how formats are named,
//! and how an image is described to EGL for it to be imported.
//!
//! The entry points of EGL are the backend's. What is here is the reasoning
//! about what they are handed and what they answer.

use crate::objects::{DmabufImage, DmabufImageView};
use crate::seqs;
use crate::text::{self, contains_word, decimal_text};
use crate::wire;
use vstd::prelude::*;
use vstd::string::StringExecFns;

verus! {

/// The 32-bit format with alpha, `AR24`.
pub const DRM_FORMAT_ARGB8888: u32 = 0x3432_5241;

/// The 32-bit format without alpha, `XR24`.
pub const DRM_FORMAT_XRGB8888: u32 = 0x3432_5258;

/// No layout named: it is worked out from the descriptor.
pub const DRM_FORMAT_MOD_INVALID: u64 = 0x00ff_ffff_ffff_ffff;

/// Row after row.
pub const DRM_FORMAT_MOD_LINEAR: u64 = 0;

/// A format the backend can import, and the layouts it can import it in.
#[derive(Debug)]
pub struct DmabufFormat {
    /// The DRM format
    pub fourcc: u32,
    /// The layouts named for it. None named is not none possible: the implicit
    /// layout is all there is.
    pub modifiers: Vec<u64>,
}

/// A format, its layouts as a sequence.
#[verifier::ext_equal]
pub struct DmabufFormatView {
    pub fourcc: u32,
    pub modifiers: Seq<u64>,
}

impl View for DmabufFormat {
    type V = DmabufFormatView;

    open spec fn view(&self) -> DmabufFormatView {
        DmabufFormatView { fourcc: self.fourcc, modifiers: self.modifiers@ }
    }
}

/// What some formats are.
pub open spec fn formats_view(formats: Seq<DmabufFormat>) -> Seq<DmabufFormatView> {
    formats.map_values(|f: DmabufFormat| f@)
}

/// What came of probing the backend for dma-buf support.
#[derive(Debug)]
pub enum DmabufProbe {
    /// An image made a round trip.
    Passed,
    /// There was no way to try, for this reason.
    Untested(String),
    /// dma-bufs cannot be imported at all, for this reason.
    Unsupported(String),
    /// They should have been importable and were not, for this reason.
    Failed(String),
}

/// The extension that imports dma-bufs.
pub fn import_extension() -> (r: &'static str)
    ensures
        r@ == "EGL_EXT_image_dma_buf_import"@,
{
    "EGL_EXT_image_dma_buf_import"
}

/// The extension that says which layouts can be imported.
pub fn modifiers_extension() -> (r: &'static str)
    ensures
        r@ == "EGL_EXT_image_dma_buf_import_modifiers"@,
{
    "EGL_EXT_image_dma_buf_import_modifiers"
}

/// The extension that makes a dma-buf of a texture.
pub fn export_extension() -> (r: &'static str)
    ensures
        r@ == "EGL_MESA_image_dma_buf_export"@,
{
    "EGL_MESA_image_dma_buf_export"
}

/// Whether an extension is in a space-separated EGL extension string.
///
/// Substring matching would say yes to `EGL_EXT_image_dma_buf_import` for a
/// driver offering only `EGL_EXT_image_dma_buf_import_modifiers`, which is a
/// different extension with different entry points.
pub fn has_extension(extensions: &str, wanted: &str) -> (r: bool)
    ensures
        r == text::has_word(extensions@, wanted@),
{
    contains_word(extensions, wanted)
}

/// The format named by four characters.
pub fn fourcc(name: [u8; 4]) -> (r: u32)
    ensures
        r == wire::le_word(name@),
{
    name[0] as u32 + name[1] as u32 * 256 + name[2] as u32 * 65536 + name[3] as u32 * 16777216
}

/// How a byte of a format's name is shown: as itself, where there is something
/// to see.
pub open spec fn shown(b: u8) -> char {
    if 0x21 <= b <= 0x7e {
        b as char
    } else {
        '?'
    }
}

/// The four characters a format is named for.
pub open spec fn name_of(code: u32) -> Seq<char> {
    wire::le_bytes(code).map_values(|b: u8| shown(b))
}

/// How a byte of a format's name is shown.
fn show(b: u8) -> (r: char)
    ensures
        r == shown(b),
{
    if b >= 0x21 && b <= 0x7e {
        b as char
    } else {
        '?'
    }
}

/// The four characters a format is named for. Whatever a driver hands back, a
/// log line stays readable.
pub fn fourcc_name(code: u32) -> (r: String)
    ensures
        r@ == name_of(code),
{
    let mut chars: Vec<char> = Vec::new();
    chars.push(show((code % 256) as u8));
    chars.push(show(((code / 256) % 256) as u8));
    chars.push(show(((code / 65536) % 256) as u8));
    chars.push(show((code / 16777216) as u8));
    assert(chars@ =~= name_of(code));
    text::text_of(&chars)
}

/// A layout that can be sampled without an external sampler.
pub open spec fn samplable() -> spec_fn((u64, bool)) -> bool {
    |m: (u64, bool)| !m.1
}

/// The layouts that can be sampled.
pub open spec fn samplable_modifiers(enumerated: Seq<(u64, bool)>) -> Seq<u64> {
    enumerated.filter(samplable()).map_values(|m: (u64, bool)| m.0)
}

/// How a format is offered, if it is.
pub open spec fn offered(code: u32, enumerated: Seq<(u64, bool)>) -> Option<DmabufFormatView> {
    if enumerated.len() == 0 {
        Some(DmabufFormatView { fourcc: code, modifiers: Seq::empty() })
    } else if samplable_modifiers(enumerated).len() == 0 {
        None
    } else {
        Some(DmabufFormatView { fourcc: code, modifiers: samplable_modifiers(enumerated) })
    }
}

/// What a format is, if there is one.
pub open spec fn format_view(format: Option<DmabufFormat>) -> Option<DmabufFormatView> {
    match format {
        Some(f) => Some(f@),
        None => None,
    }
}

/// Whether a format can be offered to clients, and with which modifiers.
///
/// This is the rule that keeps the compositor from advertising what it cannot
/// draw, which matters more than it sounds: a client allocates against the list
/// it is given, and a buffer it allocated for a format we then refuse leaves it
/// with nothing to fall back to.
///
/// Two things get filtered. A modifier marked `external_only` needs
/// `samplerExternalOES`, which the renderer has no program for. And a format
/// whose every modifier was external is dropped outright - on Mesa that is
/// every YUV layout, which is why the advertised list is much shorter than the
/// driver's.
///
/// An empty `enumerated` is the opposite case and must not be confused with it:
/// the driver named no modifiers, so the implicit layout is all there is, and
/// that imports fine. "Nothing named" and "nothing usable" look alike and mean
/// opposite things.
pub fn advertisable_format(code: u32, enumerated: &[(u64, bool)]) -> (r: Option<DmabufFormat>)
    ensures
        format_view(r) == offered(code, enumerated@),
{
    let mut modifiers: Vec<u64> = Vec::new();
    if enumerated.len() == 0 {
        let format = DmabufFormat { fourcc: code, modifiers };
        assert(format@ =~= DmabufFormatView { fourcc: code, modifiers: Seq::empty() });
        return Some(format);
    }
    let ghost p = samplable();
    let mut i: usize = 0;
    proof {
        reveal(Seq::filter);
        assert(enumerated@.take(0) =~= Seq::empty());
        assert(modifiers@ =~= samplable_modifiers(enumerated@.take(0)));
    }
    while i < enumerated.len()
        invariant
            i <= enumerated@.len(),
            p == samplable(),
            modifiers@ == samplable_modifiers(enumerated@.take(i as int)),
        decreases enumerated@.len() - i,
    {
        proof {
            seqs::lemma_filter_step(enumerated@, p, i as int);
        }
        let (modifier, external_only): (u64, bool) = enumerated[i];
        if !external_only {
            modifiers.push(modifier);
        }
        assert(modifiers@ =~= samplable_modifiers(enumerated@.take(i as int + 1)));
        i = i + 1;
    }
    assert(enumerated@.take(i as int) =~= enumerated@);
    if modifiers.len() == 0 {
        return None;
    }
    Some(DmabufFormat { fourcc: code, modifiers })
}

/// Formats assumed importable when the driver will not enumerate them.
///
/// The base import extension has no way to ask, so this is the floor every
/// driver implementing it meets: the two 8-bit RGB layouts, with no modifier.
pub fn assumed_formats() -> (r: Vec<DmabufFormat>)
    ensures
        formats_view(r@) == seq![
            DmabufFormatView { fourcc: DRM_FORMAT_ARGB8888, modifiers: Seq::empty() },
            DmabufFormatView { fourcc: DRM_FORMAT_XRGB8888, modifiers: Seq::empty() },
        ],
{
    let mut r: Vec<DmabufFormat> = Vec::new();
    r.push(DmabufFormat { fourcc: DRM_FORMAT_ARGB8888, modifiers: Vec::new() });
    r.push(DmabufFormat { fourcc: DRM_FORMAT_XRGB8888, modifiers: Vec::new() });
    assert(formats_view(r@) =~= seq![
        DmabufFormatView { fourcc: DRM_FORMAT_ARGB8888, modifiers: Seq::empty() },
        DmabufFormatView { fourcc: DRM_FORMAT_XRGB8888, modifiers: Seq::empty() },
    ]);
    r
}

// Attributes of an image, as EGL numbers them.
pub const EGL_NONE: i32 = 0x3038;

pub const EGL_HEIGHT: i32 = 0x3056;

pub const EGL_WIDTH: i32 = 0x3057;

pub const EGL_LINUX_DRM_FOURCC_EXT: i32 = 0x3271;

pub const EGL_DMA_BUF_PLANE0_FD_EXT: i32 = 0x3272;

pub const EGL_DMA_BUF_PLANE0_OFFSET_EXT: i32 = 0x3273;

pub const EGL_DMA_BUF_PLANE0_PITCH_EXT: i32 = 0x3274;

// A modifier is 64 bits and an attribute value is 32, which is why it arrives
// in halves.
pub const EGL_DMA_BUF_PLANE0_MODIFIER_LO_EXT: i32 = 0x3443;

pub const EGL_DMA_BUF_PLANE0_MODIFIER_HI_EXT: i32 = 0x3444;

/// Why an image is not described to EGL at all.
#[derive(Debug, Clone, Copy, PartialEq, Eq, Structural)]
pub enum ImportRefusal {
    /// It has this many planes. Only a single plane can be sampled.
    Planes(usize),
    /// It has no area.
    Empty { width: i32, height: i32 },
}

/// The attributes that describe an image to EGL, up to the end mark.
pub open spec fn described(image: DmabufImageView, layouts_named: bool) -> Seq<i32> {
    let plane = image.planes[0];
    let base = seq![
        EGL_WIDTH,
        image.width,
        EGL_HEIGHT,
        image.height,
        EGL_LINUX_DRM_FOURCC_EXT,
        wire::word_signed(image.fourcc),
        EGL_DMA_BUF_PLANE0_FD_EXT,
        wire::word_signed(plane.fd.0),
        EGL_DMA_BUF_PLANE0_OFFSET_EXT,
        wire::word_signed(plane.offset),
        EGL_DMA_BUF_PLANE0_PITCH_EXT,
        wire::word_signed(plane.stride),
    ];
    if image.modifier != DRM_FORMAT_MOD_INVALID && layouts_named {
        base + seq![
            EGL_DMA_BUF_PLANE0_MODIFIER_LO_EXT,
            wire::word_signed((image.modifier % 0x1_0000_0000) as u32),
            EGL_DMA_BUF_PLANE0_MODIFIER_HI_EXT,
            wire::word_signed((image.modifier / 0x1_0000_0000) as u32),
        ]
    } else {
        base
    }
}

/// Describe an image to EGL, for it to be imported.
///
/// An explicit modifier is only legal to pass when the driver understands
/// modifiers at all; without that extension the layout is whatever the two
/// sides agreed out of band.
pub fn import_attributes(image: &DmabufImage, layouts_named: bool) -> (r: Result<
    Vec<i32>,
    ImportRefusal,
>)
    ensures
        match r {
            Ok(attributes) => image.planes@.len() == 1 && image.width > 0 && image.height > 0
                && attributes@ == described(image@, layouts_named).push(EGL_NONE),
            Err(ImportRefusal::Planes(n)) => image.planes@.len() != 1 && n == image.planes@.len(),
            Err(ImportRefusal::Empty { width, height }) => image.planes@.len() == 1 && (image.width
                <= 0 || image.height <= 0) && width == image.width && height == image.height,
        },
{
    if image.planes.len() != 1 {
        return Err(ImportRefusal::Planes(image.planes.len()));
    }
    if image.width <= 0 || image.height <= 0 {
        return Err(ImportRefusal::Empty { width: image.width, height: image.height });
    }
    let plane = image.planes[0];
    let mut attributes: Vec<i32> = Vec::new();
    attributes.push(EGL_WIDTH);
    attributes.push(image.width);
    attributes.push(EGL_HEIGHT);
    attributes.push(image.height);
    attributes.push(EGL_LINUX_DRM_FOURCC_EXT);
    attributes.push(image.fourcc as i32);
    attributes.push(EGL_DMA_BUF_PLANE0_FD_EXT);
    attributes.push(plane.fd.0 as i32);
    attributes.push(EGL_DMA_BUF_PLANE0_OFFSET_EXT);
    attributes.push(plane.offset as i32);
    attributes.push(EGL_DMA_BUF_PLANE0_PITCH_EXT);
    attributes.push(plane.stride as i32);
    if image.modifier != DRM_FORMAT_MOD_INVALID && layouts_named {
        attributes.push(EGL_DMA_BUF_PLANE0_MODIFIER_LO_EXT);
        attributes.push((image.modifier % 0x1_0000_0000) as u32 as i32);
        attributes.push(EGL_DMA_BUF_PLANE0_MODIFIER_HI_EXT);
        attributes.push((image.modifier / 0x1_0000_0000) as u32 as i32);
    }
    attributes.push(EGL_NONE);
    assert(attributes@ =~= described(image@, layouts_named).push(EGL_NONE));
    Ok(attributes)
}

/// Side of the image a probe makes a round trip with.
///
/// Small enough to be free, big enough that a stride mistake shows up as a
/// shear rather than passing by luck.
pub const SELF_TEST_SIDE: u8 = 4;

/// A byte of the image a probe makes a round trip with.
pub open spec fn pattern_byte(i: int) -> u8 {
    let pixel = i / 4;
    if i % 4 == 0 {
        ((pixel * 17) % 256) as u8
    } else if i % 4 == 1 {
        ((pixel * 29) % 256) as u8
    } else if i % 4 == 2 {
        ((pixel * 53) % 256) as u8
    } else {
        0xff
    }
}

/// The image a probe makes a round trip with.
pub open spec fn pattern() -> Seq<u8> {
    Seq::new(4 * SELF_TEST_SIDE as nat * SELF_TEST_SIDE as nat, |i: int| pattern_byte(i))
}

/// No two pixels of the image a probe makes a round trip with are alike in any
/// colour: one that comes back transposed, sheared or shifted cannot compare
/// equal.
pub proof fn law_pattern_has_no_repeats(a: int, b: int, channel: int)
    requires
        0 <= a < b < SELF_TEST_SIDE as int * SELF_TEST_SIDE as int,
        0 <= channel < 3,
    ensures
        pattern()[4 * a + channel] != pattern()[4 * b + channel],
{
    let (x, y) = (a as u32, b as u32);
    assert((x * 17) % 256 != (y * 17) % 256 && (x * 29) % 256 != (y * 29) % 256 && (x * 53) % 256
        != (y * 53) % 256) by (bit_vector)
        requires
            x < y < 16,
    ;
    assert((4 * a + channel) / 4 == a && (4 * a + channel) % 4 == channel);
    assert((4 * b + channel) / 4 == b && (4 * b + channel) % 4 == channel);
    assert(pattern()[4 * a + channel] == pattern_byte(4 * a + channel));
    assert(pattern()[4 * b + channel] == pattern_byte(4 * b + channel));
}

/// Make the image a probe makes a round trip with.
pub fn self_test_pattern() -> (r: Vec<u8>)
    ensures
        r@ == pattern(),
{
    let mut r: Vec<u8> = Vec::new();
    let ghost all = pattern();
    let pixels: u32 = SELF_TEST_SIDE as u32 * SELF_TEST_SIDE as u32;
    let mut i: u32 = 0;
    while i < pixels
        invariant
            i <= pixels,
            pixels == 16,
            all == pattern(),
            all.len() == 64,
            r@.len() == 4 * i,
            forall|j: int| 0 <= j < 4 * i ==> r@[j] == #[trigger] all[j],
        decreases pixels - i,
    {
        assert((4 * i) / 4 == i && (4 * i + 1) / 4 == i && (4 * i + 2) / 4 == i && (4 * i + 3) / 4
            == i);
        assert(all[4 * i as int] == ((i * 17) % 256) as u8);
        assert(all[4 * i as int + 1] == ((i * 29) % 256) as u8);
        assert(all[4 * i as int + 2] == ((i * 53) % 256) as u8);
        assert(all[4 * i as int + 3] == 0xff);
        r.push(((i * 17) % 256) as u8);
        r.push(((i * 29) % 256) as u8);
        r.push(((i * 53) % 256) as u8);
        r.push(0xff);
        i = i + 1;
    }
    assert(r@ =~= all);
    r
}

/// A format with how many layouts it has, for a log line.
pub open spec fn summary(f: DmabufFormatView) -> Seq<char> {
    name_of(f.fourcc) + " ("@ + text::decimal(
        if f.modifiers.len() <= u32::MAX {
            f.modifiers.len()
        } else {
            u32::MAX as nat
        },
    ) + " modifier(s))"@
}

/// Some formats with how many layouts each has, for a log line.
pub open spec fn summaries(formats: Seq<DmabufFormatView>) -> Seq<char>
    decreases formats.len(),
{
    if formats.len() == 0 {
        Seq::empty()
    } else if formats.len() == 1 {
        summary(formats[0])
    } else {
        summaries(formats.drop_last()) + ", "@ + summary(formats.last())
    }
}

/// Format names and modifier counts, for a log line.
pub fn describe_formats(formats: &[DmabufFormat]) -> (r: String)
    ensures
        r@ == summaries(formats_view(formats@)),
{
    let mut r = String::new();
    let ghost all = formats_view(formats@);
    let mut i: usize = 0;
    assert(r@ =~= Seq::empty());
    while i < formats.len()
        invariant
            i <= formats@.len(),
            all == formats_view(formats@),
            r@ == summaries(all.take(i as int)),
        decreases formats@.len() - i,
    {
        proof {
            assert(all[i as int] == formats@[i as int]@);
            assert(all.take(i as int + 1).drop_last() =~= all.take(i as int));
        }
        let ghost before = r@;
        if i > 0 {
            r.append(", ");
        }
        let ghost separated = r@;
        r.append(fourcc_name(formats[i].fourcc).as_str());
        r.append(" (");
        let layouts: u32 = if formats[i].modifiers.len() as u64 > u32::MAX as u64 {
            u32::MAX
        } else {
            formats[i].modifiers.len() as u32
        };
        r.append(decimal_text(layouts).as_str());
        r.append(" modifier(s))");
        assert(r@ =~= separated + summary(all[i as int]));
        assert(r@ =~= summaries(all.take(i as int + 1)));
        i = i + 1;
    }
    assert(all.take(i as int) =~= all);
    r
}

/// A layout that only an external sampler can read is never offered, and every
/// layout that can be sampled is.
pub proof fn law_only_samplable_layouts_are_offered(
    code: u32,
    enumerated: Seq<(u64, bool)>,
    modifier: u64,
)
    ensures
        offered(code, enumerated) matches Some(f) ==> f.fourcc == code && (f.modifiers.contains(
            modifier,
        ) <==> enumerated.contains((modifier, false))),
        offered(code, enumerated) is None <==> enumerated.len() > 0 && forall|i: int|
            0 <= i < enumerated.len() ==> (#[trigger] enumerated[i]).1,
{
    let kept = enumerated.filter(samplable());
    let modifiers = samplable_modifiers(enumerated);
    seqs::lemma_filter_contains(enumerated, samplable(), (modifier, false));
    seqs::lemma_filter_passes(enumerated, samplable());
    if modifiers.contains(modifier) {
        let i = choose|i: int| 0 <= i < modifiers.len() && modifiers[i] == modifier;
        assert(samplable()(kept[i]));
        assert(kept[i] == (modifier, false));
        assert(kept.contains((modifier, false)));
    }
    if kept.contains((modifier, false)) {
        let i = choose|i: int| 0 <= i < kept.len() && kept[i] == (modifier, false);
        assert(modifiers[i] == modifier);
    }
    if kept.len() > 0 {
        assert(samplable()(kept[0]));
        assert(enumerated.contains(kept[0]));
        let i = choose|i: int| 0 <= i < enumerated.len() && enumerated[i] == kept[0];
        assert(!enumerated[i].1);
    } else {
        assert forall|i: int| 0 <= i < enumerated.len() implies (#[trigger] enumerated[i]).1 by {
            seqs::lemma_filter_contains(enumerated, samplable(), enumerated[i]);
            assert(enumerated.contains(enumerated[i]));
        }
    }
}

} // verus!

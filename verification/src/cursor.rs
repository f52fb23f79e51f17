//! Cursor images: the one of the system's cursor theme, and the built-in one.

use crate::objects::{DefaultCursor, DefaultCursorView};
use crate::wire::{self, read_u32, ArgWriter};
use vstd::prelude::*;
use vstd::string::StrSliceExecFns;

verus! {

/// The width of the built-in cursor
pub const FALLBACK_CURSOR_WIDTH: usize = 12;

/// The height of the built-in cursor
pub const FALLBACK_CURSOR_HEIGHT: usize = 19;

/// Black, for the outline of the built-in cursor
pub const CURSOR_BLACK: u32 = 0xff00_0000;

/// White, for the inside of the built-in cursor
pub const CURSOR_WHITE: u32 = 0xffff_ffff;

/// What size of cursor is used where none is asked for.
pub const DEFAULT_CURSOR_SIZE: u32 = 24;

/// How long the header of an image in a cursor file is.
pub const IMAGE_HEADER_SIZE: u32 = 36;

/// What an image in a cursor file is marked with.
pub const IMAGE_CHUNK: u32 = 0xfffd_0002;

/// The longest side of an image in a cursor file.
pub const LONGEST_SIDE: u32 = 0x7fff;

/// The largest cursor file that is looked at where addresses are narrower than 64
/// bits.
pub const LARGEST_NARROW_FILE: usize = 0x1000_0000;

/// A row of the built-in cursor, as it looks.
pub open spec fn bitmap_row(y: int) -> Seq<char> {
    if y == 0 {
        "B..........."@
    } else if y == 1 {
        "BB.........."@
    } else if y == 2 {
        "BWB........."@
    } else if y == 3 {
        "BWWB........"@
    } else if y == 4 {
        "BWWWB......."@
    } else if y == 5 {
        "BWWWWB......"@
    } else if y == 6 {
        "BWWWWWB....."@
    } else if y == 7 {
        "BWWWWWWB...."@
    } else if y == 8 {
        "BWWWWWWWB..."@
    } else if y == 9 {
        "BWWWWWWWWB.."@
    } else if y == 10 {
        "BWWWWWWWWWB."@
    } else if y == 11 {
        "BWWWWWWWWWWB"@
    } else if y == 12 {
        "BWWWWWWBBBBB"@
    } else if y == 13 {
        "BWWBWWWB...."@
    } else if y == 14 {
        "BWBB.BWWB..."@
    } else if y == 15 {
        "BB...BWWB..."@
    } else if y == 16 {
        "B.....BWWB.."@
    } else if y == 17 {
        "......BWWB.."@
    } else {
        ".......BB..."@
    }
}

/// The colour a character of the built-in cursor stands for.
pub open spec fn colour_of(c: char) -> u32 {
    if c == 'B' {
        CURSOR_BLACK
    } else if c == 'W' {
        CURSOR_WHITE
    } else {
        0
    }
}

/// The pixels of the built-in cursor, row by row.
pub open spec fn fallback_pixels() -> Seq<u32> {
    Seq::new(
        (FALLBACK_CURSOR_HEIGHT * FALLBACK_CURSOR_WIDTH) as nat,
        |i: int|
            colour_of(
                bitmap_row(i / FALLBACK_CURSOR_WIDTH as int)[i % FALLBACK_CURSOR_WIDTH as int],
            ),
    )
}

/// A row of the built-in cursor.
fn fallback_row(y: usize) -> (r: &'static str)
    requires
        y < FALLBACK_CURSOR_HEIGHT,
    ensures
        r@ == bitmap_row(y as int),
        r@.len() == FALLBACK_CURSOR_WIDTH,
{
    proof {
        reveal_strlit("B...........");
        reveal_strlit("BB..........");
        reveal_strlit("BWB.........");
        reveal_strlit("BWWB........");
        reveal_strlit("BWWWB.......");
        reveal_strlit("BWWWWB......");
        reveal_strlit("BWWWWWB.....");
        reveal_strlit("BWWWWWWB....");
        reveal_strlit("BWWWWWWWB...");
        reveal_strlit("BWWWWWWWWB..");
        reveal_strlit("BWWWWWWWWWB.");
        reveal_strlit("BWWWWWWWWWWB");
        reveal_strlit("BWWWWWWBBBBB");
        reveal_strlit("BWWBWWWB....");
        reveal_strlit("BWBB.BWWB...");
        reveal_strlit("BB...BWWB...");
        reveal_strlit("B.....BWWB..");
        reveal_strlit("......BWWB..");
        reveal_strlit(".......BB...");
    }
    match y {
        0 => "B...........",
        1 => "BB..........",
        2 => "BWB.........",
        3 => "BWWB........",
        4 => "BWWWB.......",
        5 => "BWWWWB......",
        6 => "BWWWWWB.....",
        7 => "BWWWWWWB....",
        8 => "BWWWWWWWB...",
        9 => "BWWWWWWWWB..",
        10 => "BWWWWWWWWWB.",
        11 => "BWWWWWWWWWWB",
        12 => "BWWWWWWBBBBB",
        13 => "BWWBWWWB....",
        14 => "BWBB.BWWB...",
        15 => "BB...BWWB...",
        16 => "B.....BWWB..",
        17 => "......BWWB..",
        _ => ".......BB...",
    }
}

/// Rasterise the built-in cursor bitmap into premultiplied ARGB pixels.
pub fn fallback_cursor_pixels() -> (r: (i32, i32, Vec<u32>))
    ensures
        r.0 == FALLBACK_CURSOR_WIDTH,
        r.1 == FALLBACK_CURSOR_HEIGHT,
        r.2@ == fallback_pixels(),
{
    let mut pixels: Vec<u32> = Vec::new();
    let ghost all = fallback_pixels();
    let mut y: usize = 0;
    while y < FALLBACK_CURSOR_HEIGHT
        invariant
            y <= FALLBACK_CURSOR_HEIGHT,
            all == fallback_pixels(),
            pixels@.len() == y * 12,
            forall|i: int| 0 <= i < pixels@.len() ==> pixels@[i] == #[trigger] all[i],
        decreases FALLBACK_CURSOR_HEIGHT - y,
    {
        let row = fallback_row(y);
        let mut x: usize = 0;
        while x < FALLBACK_CURSOR_WIDTH
            invariant
                x <= FALLBACK_CURSOR_WIDTH,
                y < FALLBACK_CURSOR_HEIGHT,
                all == fallback_pixels(),
                row@ == bitmap_row(y as int),
                row@.len() == FALLBACK_CURSOR_WIDTH,
                pixels@.len() == y * 12 + x,
                forall|i: int| 0 <= i < pixels@.len() ==> pixels@[i] == #[trigger] all[i],
            decreases FALLBACK_CURSOR_WIDTH - x,
        {
            let c = row.get_char(x);
            // Transparent where nothing else, and premultiplied, so it blends
            // to nothing.
            let colour: u32 = if c == 'B' {
                CURSOR_BLACK
            } else if c == 'W' {
                CURSOR_WHITE
            } else {
                0
            };
            let ghost at = y * 12 + x;
            assert(at / 12 == y && at % 12 == x) by (nonlinear_arith)
                requires
                    at == y * 12 + x,
                    0 <= x < 12,
                    0 <= y,
            ;
            assert(all[at] == colour);
            pixels.push(colour);
            x = x + 1;
        }
        y = y + 1;
    }
    assert(pixels@ =~= all);
    (FALLBACK_CURSOR_WIDTH as i32, FALLBACK_CURSOR_HEIGHT as i32, pixels)
}

/// Flatten `0xAARRGGBB` words into the little-endian `[B, G, R, A]` byte order
/// that shm buffers already use, so both take the same upload path.
pub fn argb_to_bytes(pixels: &Vec<u32>) -> (r: Vec<u8>)
    ensures
        r@ == wire::words_bytes(pixels@),
{
    let mut w = ArgWriter::new();
    let mut i: usize = 0;
    assert(pixels@.take(0) =~= Seq::empty());
    while i < pixels.len()
        invariant
            i <= pixels@.len(),
            w@ == wire::words_bytes(pixels@.take(i as int)),
        decreases pixels@.len() - i,
    {
        assert(pixels@.take(i as int + 1).drop_last() =~= pixels@.take(i as int));
        w = w.u32(pixels[i]);
        i = i + 1;
    }
    assert(pixels@.take(i as int) =~= pixels@);
    w.build()
}

/// One image of a cursor file.
#[derive(Debug)]
pub struct CursorImage {
    /// The nominal size
    pub size: u32,
    pub width: u32,
    pub height: u32,
    pub xhot: u32,
    pub yhot: u32,
    /// The pixels in the order of the file
    pub pixels: Vec<u8>,
}

/// One image of a cursor file, its pixels as a sequence.
#[verifier::ext_equal]
pub struct CursorImageView {
    pub size: u32,
    pub width: u32,
    pub height: u32,
    pub xhot: u32,
    pub yhot: u32,
    pub pixels: Seq<u8>,
}

impl View for CursorImage {
    type V = CursorImageView;

    open spec fn view(&self) -> CursorImageView {
        CursorImageView {
            size: self.size,
            width: self.width,
            height: self.height,
            xhot: self.xhot,
            yhot: self.yhot,
            pixels: self.pixels@,
        }
    }
}

/// What some images are.
pub open spec fn images_view(images: Seq<CursorImage>) -> Seq<CursorImageView> {
    images.map_values(|i: CursorImage| i@)
}

/// How many bytes of pixels an image claims that begins at a place in a file. A
/// side longer than an image may have claims nothing.
pub open spec fn claimed_at(content: Seq<u8>, at: int) -> int {
    match (
        wire::word_at(content, at),
        wire::word_at(content, at + 4),
        wire::word_at(content, at + 16),
        wire::word_at(content, at + 20),
    ) {
        (Some(header), Some(kind), Some(width), Some(height)) => if header == IMAGE_HEADER_SIZE
            && kind == IMAGE_CHUNK && width <= LONGEST_SIDE && height <= LONGEST_SIDE {
            4 * width * height
        } else {
            0
        },
        _ => 0,
    }
}

/// No image in a file claims more bytes than can be asked for at once, and the
/// file is not so long that the list of its images might. Where addresses have
/// 64 bits neither ever happens.
pub open spec fn file_fits(content: Seq<u8>) -> bool {
    usize::BITS == 64 || (content.len() <= LARGEST_NARROW_FILE && forall|at: int|
        0 <= at < content.len() ==> #[trigger] claimed_at(content, at) <= 0x7fff_ffff)
}

/// Whether a file asks for no more than can be had.
fn fits(content: &Vec<u8>) -> (r: bool)
    ensures
        r == file_fits(content@),
{
    if usize::BITS == 64 {
        return true;
    }
    if content.len() > LARGEST_NARROW_FILE {
        return false;
    }
    let bytes = content.as_slice();
    let mut at: usize = 0;
    while at < content.len()
        invariant
            usize::BITS != 64,
            bytes@ == content@,
            at <= content@.len() <= LARGEST_NARROW_FILE,
            forall|i: int| 0 <= i < at ==> #[trigger] claimed_at(content@, i) <= 0x7fff_ffff,
        decreases content@.len() - at,
    {
        let (header, kind) = (read_u32(bytes, at), read_u32(bytes, at + 4));
        let (width, height) = (read_u32(bytes, at + 16), read_u32(bytes, at + 20));
        let claimed: u64 = match (header, kind, width, height) {
            (Some(header), Some(kind), Some(width), Some(height)) => if header
                == IMAGE_HEADER_SIZE && kind == IMAGE_CHUNK && width <= LONGEST_SIDE && height
                <= LONGEST_SIDE {
                assert(width * height <= 0x7fff * 0x7fff) by (nonlinear_arith)
                    requires
                        width <= 0x7fff,
                        height <= 0x7fff,
                ;
                assert(4 * width * height == 4 * (width * height)) by (nonlinear_arith);
                4 * (width as u64 * height as u64)
            } else {
                0
            },
            _ => 0,
        };
        assert(claimed == claimed_at(content@, at as int));
        if claimed > 0x7fff_ffff {
            return false;
        }
        at = at + 1;
    }
    true
}

/// The images in a cursor file, or nothing if it is not one, as
/// `xcursor::parser::parse_xcursor` has it.
pub uninterp spec fn cursor_file_images(content: Seq<u8>) -> Option<Seq<CursorImageView>>;

/// Take a cursor file apart.
///
/// `xcursor::parser::parse_xcursor` does it. What it finds is a function of the
/// bytes alone. It passes no image whose sides are not between 1 and 32767
/// pixels, whose hotspot is further out than they are long, or that has not
/// four bytes for every pixel. An image may claim nearly four gigabytes of
/// pixels, which it asks for before it reads them, and the list of images grows
/// with the file: either may be more than can be asked for at once where addresses
/// are narrower than 64 bits.
#[verifier::external_body]
fn parse_cursor_file(content: &Vec<u8>) -> (r: Option<Vec<CursorImage>>)
    requires
        file_fits(content@),
    ensures
        r is Some == cursor_file_images(content@) is Some,
        r matches Some(images) ==> cursor_file_images(content@) == Some(images_view(images@)),
        r matches Some(images) ==> forall|i: int|
            0 <= i < images@.len() ==> {
                &&& 0 < (#[trigger] images@[i]).width <= 0x7fff
                &&& 0 < images@[i].height <= 0x7fff
                &&& images@[i].xhot <= images@[i].width
                &&& images@[i].yhot <= images@[i].height
                &&& images@[i].pixels@.len() == 4 * images@[i].width * images@[i].height
            },
{
    let images = xcursor::parser::parse_xcursor(content)?;
    Some(
        images.into_iter().map(
            |i| CursorImage {
                size: i.size,
                width: i.width,
                height: i.height,
                xhot: i.xhot,
                yhot: i.yhot,
                pixels: i.pixels_rgba,
            },
        ).collect(),
    )
}

/// How far an image is from a size.
pub open spec fn size_off(image: CursorImageView, target: u32) -> int {
    let d = wire::word_signed(image.size) - wire::word_signed(target);
    if d < 0 {
        -d
    } else {
        d
    }
}

/// An image is the first of those nearest to a size.
pub open spec fn is_nearest(images: Seq<CursorImageView>, target: u32, i: int) -> bool {
    &&& 0 <= i < images.len()
    &&& forall|j: int|
        0 <= j < i ==> size_off(#[trigger] images[j], target) > size_off(images[i], target)
    &&& forall|j: int|
        i <= j < images.len() ==> size_off(#[trigger] images[j], target) >= size_off(
            images[i],
            target,
        )
}

/// Bytes, four at a time, as words. What is left over is left out.
pub open spec fn whole_words(bytes: Seq<u8>) -> Seq<u32> {
    Seq::new(bytes.len() / 4, |i: int| wire::le_word(bytes.subrange(4 * i, 4 * i + 4)))
}

/// The cursor an image is of.
pub open spec fn cursor_of(image: CursorImageView) -> DefaultCursorView {
    DefaultCursorView {
        pixels: whole_words(image.pixels),
        width: wire::word_signed(image.width),
        height: wire::word_signed(image.height),
        hotspot_x: wire::word_signed(image.xhot),
        hotspot_y: wire::word_signed(image.yhot),
    }
}

/// The distance between two sizes.
fn size_distance(size: u32, target: u32) -> (r: i64)
    ensures
        r == {
            let d = wire::word_signed(size) - wire::word_signed(target);
            if d < 0 {
                -d
            } else {
                d
            }
        },
{
    let d: i64 = size as i32 as i64 - target as i32 as i64;
    if d < 0 {
        -d
    } else {
        d
    }
}

/// The pixels of an image, as `0xAARRGGBB`.
///
/// The file stores pixels as little-endian 32-bit ARGB with premultiplied
/// alpha: read as little-endian words, they match the texture format.
fn words_of(bytes: &Vec<u8>) -> (r: Vec<u32>)
    ensures
        r@ == whole_words(bytes@),
{
    let mut r: Vec<u32> = Vec::new();
    let ghost all = whole_words(bytes@);
    let total: usize = bytes.len();
    let count: usize = total / 4;
    let mut i: usize = 0;
    while i < count
        invariant
            i <= count,
            total == bytes@.len(),
            count == total / 4,
            all == whole_words(bytes@),
            r@.len() == i,
            forall|j: int| 0 <= j < i ==> r@[j] == #[trigger] all[j],
        decreases count - i,
    {
        if let Some(word) = read_u32(bytes.as_slice(), 4 * i) {
            assert(all[i as int] == word);
            r.push(word);
        }
        i = i + 1;
    }
    assert(r@ =~= all);
    r
}

/// Pick the image closest to a size.
pub fn nearest_cursor(images: &Vec<CursorImage>, target_size: u32) -> (r: Option<DefaultCursor>)
    ensures
        r is Some == (images@.len() > 0),
        r matches Some(cursor) ==> exists|i: int|
            #[trigger] is_nearest(images_view(images@), target_size, i) && cursor@ == cursor_of(
                images_view(images@)[i],
            ),
{
    if images.len() == 0 {
        return None;
    }
    let ghost views = images_view(images@);
    let mut best: usize = 0;
    let mut i: usize = 1;
    while i < images.len()
        invariant
            views == images_view(images@),
            best < i <= images@.len(),
            is_nearest(views.take(i as int), target_size, best as int),
        decreases images@.len() - i,
    {
        let ghost seen = views.take(i as int);
        let ghost more = views.take(i as int + 1);
        assert forall|j: int| 0 <= j < i implies #[trigger] more[j] == seen[j] by {}
        if size_distance(images[i].size, target_size) < size_distance(
            images[best].size,
            target_size,
        ) {
            best = i;
        }
        i = i + 1;
    }
    assert(views.take(i as int) =~= views);
    let image = &images[best];
    let cursor = DefaultCursor {
        pixels: words_of(&image.pixels),
        width: image.width as i32,
        height: image.height as i32,
        hotspot_x: image.xhot as i32,
        hotspot_y: image.yhot as i32,
    };
    assert(is_nearest(views, target_size, best as int));
    assert(cursor@ =~= cursor_of(views[best as int]));
    Some(cursor)
}

/// Make a cursor of the contents of a cursor file, as near as it has it to a
/// size.
///
/// Nothing comes of contents that are not a cursor file, nor of a cursor file
/// without images; nor of one that asks for more memory than there can be.
pub fn cursor_from_file(content: &Vec<u8>, target_size: u32) -> (r: Option<DefaultCursor>)
    ensures
        r is Some == (file_fits(content@) && (cursor_file_images(content@) matches Some(images)
            && images.len() > 0)),
        r matches Some(cursor) ==> exists|i: int|
            #[trigger] is_nearest(cursor_file_images(content@).unwrap(), target_size, i) && cursor@
                == cursor_of(cursor_file_images(content@).unwrap()[i]),
        r matches Some(cursor) ==> cursor.width > 0 && cursor.height > 0 && cursor.pixels@.len()
            == cursor.width * cursor.height,
{
    if !fits(content) {
        return None;
    }
    match parse_cursor_file(content) {
        Some(images) => {
            let r = nearest_cursor(&images, target_size);
            proof {
                if r is Some {
                    let cursor = r.unwrap();
                    let views = images_view(images@);
                    let i = choose|i: int|
                        #[trigger] is_nearest(views, target_size, i) && cursor@ == cursor_of(
                            views[i],
                        );
                    assert(views[i] == images@[i]@);
                    let (w, h) = (images@[i].width, images@[i].height);
                    assert(wire::word_signed(w) == w && wire::word_signed(h) == h);
                    assert(4 * w * h == 4 * (w * h)) by (nonlinear_arith);
                }
            }
            r
        },
        None => None,
    }
}

/// Of the images of a file, only one is the first of those nearest to a size.
pub proof fn law_one_image_is_nearest(
    images: Seq<CursorImageView>,
    target: u32,
    i: int,
    j: int,
)
    requires
        is_nearest(images, target, i),
        is_nearest(images, target, j),
    ensures
        i == j,
{
    if i < j {
        assert(size_off(images[i], target) > size_off(images[j], target));
    } else if j < i {
        assert(size_off(images[j], target) > size_off(images[i], target));
    }
}

} // verus!

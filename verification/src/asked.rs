//! What becomes of what clients ask for.
//!
//! A request is a number and some words. The laws here take a request as its
//! client writes it and say where each of its words ends up: which of them is a
//! width and which a height, what has to be committed to take effect, and what
//! stays as it was.

use crate::heard;
use crate::objects::{self, BufferKindView, RegionOp};
use crate::positioner::{
    XdgPositionerAnchor, XdgPositionerConstraintAdjustment, XdgPositionerGravity,
    XdgPositionerState,
};
use crate::scene::CursorPick;
use crate::state::State;
use crate::wire::{self, Request};
use crate::workspace::ClientObjectId;
use vstd::prelude::*;

verus! {

/// A request has this number, and these words in it.
pub open spec fn asks(r: Request, op: u16, words: Seq<u32>) -> bool {
    r.op == op && r.args == wire::words_bytes(words)
}

/// A signed number as a word.
pub open spec fn w(v: i32) -> u32 {
    wire::signed_word(v)
}

/// What was written in a request is read in it.
pub proof fn lemma_asked(r: Request, op: u16, words: Seq<u32>)
    requires
        asks(r, op, words),
    ensures
        r.args.len() == 4 * words.len(),
        forall|i: int|
            0 <= i < words.len() ==> wire::word_at(r.args, 4 * i) == Some(#[trigger] words[i]),
{
    heard::lemma_words_read(words, Seq::empty());
    assert(r.args + Seq::<u8>::empty() =~= r.args);
}

proof fn lemma_asked_signed(r: Request, op: u16, words: Seq<u32>, i: int, v: i32)
    requires
        asks(r, op, words),
        0 <= i < words.len(),
        words[i] == w(v),
    ensures
        r.word(4 * i) == Some(words[i]),
        r.signed(4 * i) == Some(v),
{
    lemma_asked(r, op, words);
    assert(wire::word_at(r.args, 4 * i) == Some(words[i]));
    assert((v as u32) as i32 == v) by (bit_vector);
}

/// Two signed numbers.
proof fn lemma_asked_two(r: Request, op: u16, a: i32, b: i32)
    requires
        asks(r, op, seq![w(a), w(b)]),
    ensures
        r.signed(0) == Some(a) && r.signed(4) == Some(b),
        r.args.len() == 8,
{
    let words = seq![w(a), w(b)];
    lemma_asked(r, op, words);
    lemma_asked_signed(r, op, words, 0, a);
    lemma_asked_signed(r, op, words, 1, b);
}

/// Four signed numbers.
proof fn lemma_asked_four(r: Request, op: u16, a: i32, b: i32, c: i32, d: i32)
    requires
        asks(r, op, seq![w(a), w(b), w(c), w(d)]),
    ensures
        r.signed(0) == Some(a) && r.signed(4) == Some(b) && r.signed(8) == Some(c) && r.signed(12)
            == Some(d),
        r.args.len() == 16,
{
    let words = seq![w(a), w(b), w(c), w(d)];
    lemma_asked(r, op, words);
    lemma_asked_signed(r, op, words, 0, a);
    lemma_asked_signed(r, op, words, 1, b);
    lemma_asked_signed(r, op, words, 2, c);
    lemma_asked_signed(r, op, words, 3, d);
}

/// One word.
proof fn lemma_asked_one(r: Request, op: u16, a: u32)
    requires
        asks(r, op, seq![a]),
    ensures
        r.word(0) == Some(a),
        r.signed(0) == Some(wire::word_signed(a)),
        r.args.len() == 4,
{
    let words = seq![a];
    lemma_asked(r, op, words);
    assert(wire::word_at(r.args, 4 * 0int) == Some(words[0]));
}

/// A subsurface that is put somewhere is there: as far right and as far down of
/// its parent as the request says. No other surface moves, and nothing else about
/// this one changes.
pub proof fn law_a_subsurface_goes_where_it_is_put(
    s: State,
    r: Request,
    x: i32,
    y: i32,
    surface: ClientObjectId,
)
    requires
        asks(r, 1, seq![w(x), w(y)]),
        s.controlled(r.key()) == Some(surface),
        -0x100_0000 <= x <= 0x100_0000 && -0x100_0000 <= y <= 0x100_0000,
    ensures
        ({
            let t = s.wl_subsurface_handled(r);
            &&& t.surfaces[surface].subsurface_position == (x, y)
            &&& t.surfaces[surface].position == s.surfaces[surface].position
            &&& t.surfaces[surface].parent == s.surfaces[surface].parent
            &&& t.surfaces.dom() == s.surfaces.dom()
            &&& forall|k: ClientObjectId|
                k != surface ==> #[trigger] t.surfaces[k] == s.surfaces[k]
            &&& t.clients == s.clients
        }),
{
    lemma_asked_two(r, 1, x, y);
    let t = s.wl_subsurface_handled(r);
    assert(t.surfaces.dom() =~= s.surfaces.dom());
}

/// A surface that becomes a subsurface of another hangs off it, in front of what
/// hangs off it already.
pub proof fn law_a_subsurface_hangs_off_its_parent(
    s: State,
    r: Request,
    id: u32,
    surface: u32,
    parent: u32,
)
    requires
        asks(r, 1, seq![id, surface, parent]),
        s.can_register(r.client, id),
        surface != parent,
        s.surfaces.contains_key((r.client, surface)) && s.surfaces.contains_key((r.client, parent)),
        !s.cursor_role_surfaces.contains((r.client, surface)),
        !s.dnd_icon_surfaces.contains((r.client, surface)),
        !s.under_surface((r.client, parent), (r.client, surface)),
    ensures
        ({
            let t = s.wl_subcompositor_handled(r);
            let child = (r.client, surface);
            &&& t.surfaces[child].parent == Some(parent)
            &&& t.surfaces[(r.client, parent)].children == s.surfaces[(
                r.client,
                parent,
            )].children.push(surface)
            &&& t.controlled((r.client, id)) == Some(child)
            &&& t.surfaces[child].subsurface_position == s.surfaces[child].subsurface_position
        }),
{
    let words = seq![id, surface, parent];
    lemma_asked(r, 1, words);
    assert(wire::word_at(r.args, 4 * 0int) == Some(words[0]));
    assert(wire::word_at(r.args, 4 * 1int) == Some(words[1]));
    assert(wire::word_at(r.args, 4 * 2int) == Some(words[2]));
}

/// A positioner that is told a size has it, width first, and nothing else about
/// it changes.
pub proof fn law_a_positioner_has_the_size_it_is_given(s: State, r: Request, width: i32, height: i32)
    requires
        s.xdg_positioners.contains_key(r.key()),
        asks(r, 1, seq![w(width), w(height)]),
    ensures
        s.xdg_positioner_handled(r).xdg_positioners[r.key()] == (XdgPositionerState {
            width,
            height,
            ..s.xdg_positioners[r.key()]
        }),
{
    lemma_asked_two(r, 1, width, height);
}

/// A positioner that is told a rectangle to hang off has it: how far right, how
/// far down, how wide and how high. Nothing else about it changes.
pub proof fn law_a_positioner_has_the_rectangle_it_is_given(
    s: State,
    r: Request,
    x: i32,
    y: i32,
    width: i32,
    height: i32,
)
    requires
        s.xdg_positioners.contains_key(r.key()),
        asks(r, 2, seq![w(x), w(y), w(width), w(height)]),
    ensures
        s.xdg_positioner_handled(r).xdg_positioners[r.key()] == (XdgPositionerState {
            anchor_rect: (x, y, width, height),
            ..s.xdg_positioners[r.key()]
        }),
{
    lemma_asked_four(r, 2, x, y, width, height);
}

/// A positioner that is told an offset has it, across before down, and nothing
/// else about it changes.
pub proof fn law_a_positioner_has_the_offset_it_is_given(s: State, r: Request, x: i32, y: i32)
    requires
        s.xdg_positioners.contains_key(r.key()),
        asks(r, 6, seq![w(x), w(y)]),
    ensures
        s.xdg_positioner_handled(r).xdg_positioners[r.key()] == (XdgPositionerState {
            offset: (x, y),
            ..s.xdg_positioners[r.key()]
        }),
{
    lemma_asked_two(r, 6, x, y);
}

/// A positioner is told which side of the rectangle to hang off, which way to
/// extend, and what may be done to keep the popup on the screen, by the numbers
/// the protocol has for them.
pub proof fn law_a_positioner_has_the_sides_it_is_given(s: State, r: Request, n: u32)
    requires
        s.xdg_positioners.contains_key(r.key()),
        n <= 8,
    ensures
        ({
            let after = s.xdg_positioner_handled(r).xdg_positioners[r.key()];
            &&& asks(r, 3, seq![n]) ==> after.anchor == match n {
                0 => XdgPositionerAnchor::Unset,
                1 => XdgPositionerAnchor::Top,
                2 => XdgPositionerAnchor::Bottom,
                3 => XdgPositionerAnchor::Left,
                4 => XdgPositionerAnchor::Right,
                5 => XdgPositionerAnchor::TopLeft,
                6 => XdgPositionerAnchor::BottomLeft,
                7 => XdgPositionerAnchor::TopRight,
                _ => XdgPositionerAnchor::BottomRight,
            }
            &&& asks(r, 4, seq![n]) ==> after.gravity == match n {
                0 => XdgPositionerGravity::Unset,
                1 => XdgPositionerGravity::Top,
                2 => XdgPositionerGravity::Bottom,
                3 => XdgPositionerGravity::Left,
                4 => XdgPositionerGravity::Right,
                5 => XdgPositionerGravity::TopLeft,
                6 => XdgPositionerGravity::BottomLeft,
                7 => XdgPositionerGravity::TopRight,
                _ => XdgPositionerGravity::BottomRight,
            }
        }),
{
    if asks(r, 3, seq![n]) {
        lemma_asked_one(r, 3, n);
    }
    if asks(r, 4, seq![n]) {
        lemma_asked_one(r, 4, n);
    }
}

/// What may be done to keep a popup on the screen is what its bits say: sliding
/// in the first two, flipping in the next, and cutting in the last, each across
/// before down.
pub proof fn law_a_positioner_may_do_what_it_is_allowed(s: State, r: Request, bits: u32)
    requires
        s.xdg_positioners.contains_key(r.key()),
        asks(r, 5, seq![bits]),
    ensures
        ({
            let after = s.xdg_positioner_handled(r).xdg_positioners[r.key()];
            &&& after.allows(XdgPositionerConstraintAdjustment::SlideX) == (bits & 1 != 0)
            &&& after.allows(XdgPositionerConstraintAdjustment::SlideY) == (bits & 2 != 0)
            &&& after.allows(XdgPositionerConstraintAdjustment::FlipX) == (bits & 4 != 0)
            &&& after.allows(XdgPositionerConstraintAdjustment::FlipY) == (bits & 8 != 0)
            &&& after.allows(XdgPositionerConstraintAdjustment::ResizeX) == (bits & 16 != 0)
            &&& after.allows(XdgPositionerConstraintAdjustment::ResizeY) == (bits & 32 != 0)
        }),
{
    lemma_asked_one(r, 5, bits);
    assert(((bits & 0x3f) & 1 == 1) == (bits & 1 != 0) && ((bits & 0x3f) & 2 == 2) == (bits & 2
        != 0) && ((bits & 0x3f) & 4 == 4) == (bits & 4 != 0) && ((bits & 0x3f) & 8 == 8) == (bits
        & 8 != 0) && ((bits & 0x3f) & 16 == 16) == (bits & 16 != 0) && ((bits & 0x3f) & 32 == 32)
        == (bits & 32 != 0)) by (bit_vector);
}

/// A buffer that is attached is shown once the surface is committed, and not
/// before.
pub proof fn law_an_attached_buffer_is_shown_once_committed(s: State, r: Request, buffer: u32)
    requires
        s.surfaces.contains_key(r.key()),
        buffer != 0,
        asks(r, 1, seq![buffer, w(0), w(0)]),
    ensures
        ({
            let t = s.wl_surface_handled(r);
            &&& t.surfaces[r.key()].buffer_id == s.surfaces[r.key()].buffer_id
            &&& t.surface_committed(r.key()).surfaces[r.key()].buffer_id == Some(buffer)
        }),
{
    let words = seq![buffer, w(0), w(0)];
    lemma_asked(r, 1, words);
    assert(wire::word_at(r.args, 4 * 0int) == Some(words[0]));
    lemma_asked_signed(r, 1, words, 1, 0);
    lemma_asked_signed(r, 1, words, 2, 0);
}

/// The scale a client gives its buffer is the one it is shown at once the surface
/// is committed.
pub proof fn law_a_scale_holds_once_committed(s: State, r: Request, scale: i32)
    requires
        s.surfaces.contains_key(r.key()),
        scale >= 1,
        asks(r, 8, seq![w(scale)]),
    ensures
        s.wl_surface_handled(r).surface_committed(r.key()).surfaces[r.key()].buffer_scale == scale,
        s.wl_surface_handled(r).surfaces[r.key()].buffer_scale
            == s.surfaces[r.key()].buffer_scale,
{
    let words = seq![w(scale)];
    lemma_asked_signed(r, 8, words, 0, scale);
}

/// A surface is shown at the size its viewport was told, once that is committed,
/// whatever its buffer's: as wide as the first number and as high as the second.
pub proof fn law_a_viewport_sizes_what_it_shows(
    s: State,
    r: Request,
    width: i32,
    height: i32,
    surface: ClientObjectId,
)
    requires
        asks(r, 2, seq![w(width), w(height)]),
        width > 0 && height > 0,
        s.viewports.contains_key(r.key()),
        surface.0 == r.client,
        s.surface_viewport.contains_key(surface) && s.surface_viewport[surface] == r.object,
        s.surfaces.contains_key(surface),
        s.surfaces[surface].pending.buffer_attached == false,
        s.buffer_of(surface) matches Some(b) && b.width > 0 && b.height > 0,
    ensures
        s.wp_viewport_handled(r).surface_committed(surface).surface_size(surface) == (
            width,
            height,
        ),
{
    lemma_asked_two(r, 2, width, height);
}

/// What is shown of a buffer, in 256ths of a pixel, is what its surface's
/// viewport was told, once that is committed. Told no size, it is shown at the
/// size of what is shown, divided by the scale.
pub proof fn law_a_viewport_crops_what_it_shows(
    s: State,
    r: Request,
    x: i32,
    y: i32,
    width: i32,
    height: i32,
    surface: ClientObjectId,
)
    requires
        asks(r, 1, seq![w(x), w(y), w(width), w(height)]),
        x >= 0 && y >= 0,
        s.viewports.contains_key(r.key()),
        s.viewports[r.key()].destination is None && s.viewports[r.key()].pending_destination is None,
        surface.0 == r.client,
        s.surface_viewport.contains_key(surface) && s.surface_viewport[surface] == r.object,
        s.surfaces.contains_key(surface),
        s.surfaces[surface].pending.buffer_attached == false,
        s.surfaces[surface].pending.buffer_scale is None,
        s.surfaces[surface].buffer_scale >= 1,
        width >= 256 * s.surfaces[surface].buffer_scale,
        height >= 256 * s.surfaces[surface].buffer_scale,
        s.buffer_of(surface) matches Some(b) && b.width > 0 && b.height > 0,
    ensures
        ({
            let scale = s.surfaces[surface].buffer_scale as int;
            s.wp_viewport_handled(r).surface_committed(surface).surface_mapping(
                surface,
            ) matches Some(m) && {
                &&& m.src == (x as i64, y as i64, width as i64, height as i64)
                &&& m.dest_width * scale <= width / 256 < (m.dest_width + 1) * scale
                &&& m.dest_height * scale <= height / 256 < (m.dest_height + 1) * scale
            }
        }),
{
    lemma_asked_four(r, 1, x, y, width, height);
    lemma_divided(width as int / 256, s.surfaces[surface].buffer_scale as int);
    lemma_divided(height as int / 256, s.surfaces[surface].buffer_scale as int);
}

/// How a number is divided.
proof fn lemma_divided(v: int, by: int)
    requires
        1 <= by <= v,
    ensures
        (v / by) * by <= v < (v / by + 1) * by,
        1 <= v / by <= v,
{
    assert((v / by) * by <= v < (v / by + 1) * by && 1 <= v / by <= v) by (nonlinear_arith)
        requires
            1 <= by <= v,
    ;
}

/// A surface without a viewport shows all of its buffer, at the buffer's size
/// divided by the scale, what is left over left out.
pub proof fn law_a_buffer_is_shown_at_its_scale(s: State, surface: ClientObjectId)
    requires
        s.surfaces.contains_key(surface),
        s.viewport_of(surface) is None,
        s.surfaces[surface].buffer_scale >= 1,
        s.buffer_of(surface) matches Some(b) && b.width >= s.surfaces[surface].buffer_scale
            && b.height >= s.surfaces[surface].buffer_scale,
    ensures
        ({
            let b = s.buffer_of(surface).unwrap();
            let scale = s.surfaces[surface].buffer_scale as int;
            s.surface_mapping(surface) matches Some(m) && {
                &&& m.src == (0i64, 0i64, (256 * b.width) as i64, (256 * b.height) as i64)
                &&& m.dest_width * scale <= b.width < (m.dest_width + 1) * scale
                &&& m.dest_height * scale <= b.height < (m.dest_height + 1) * scale
            }
        }),
{
    let b = s.buffer_of(surface).unwrap();
    let scale = s.surfaces[surface].buffer_scale as int;
    let (width, height) = (b.width as int, b.height as int);
    assert((width * 256) / 256 == width && (height * 256) / 256 == height);
    lemma_divided(width, scale);
    lemma_divided(height, scale);
}

/// A rectangle that is added to a region is in it from then on, one that is
/// subtracted is not, and nothing else about the region changes. A rectangle is
/// as far right, as far down, as wide and as high as its four numbers say.
pub proof fn law_a_region_is_what_was_added_less_what_was_subtracted(
    s: State,
    r: Request,
    x: i32,
    y: i32,
    width: i32,
    height: i32,
    px: int,
    py: int,
)
    requires
        s.regions.contains_key(r.key()),
        asks(r, 1, seq![w(x), w(y), w(width), w(height)]) || asks(
            r,
            2,
            seq![w(x), w(y), w(width), w(height)],
        ),
        x + width <= i32::MAX && y + height <= i32::MAX,
        width >= 0 && height >= 0,
    ensures
        ({
            let before = s.regions[r.key()].rects;
            let after = s.wl_region_handled(r).regions[r.key()].rects;
            objects::in_region(after, px, py) == if x <= px < x + width && y <= py < y + height {
                r.op == 1
            } else {
                objects::in_region(before, px, py)
            }
        }),
{
    lemma_asked_four(r, r.op, x, y, width, height);
    let before = s.regions[r.key()].rects;
    let op = if r.op == 1 {
        RegionOp::Add
    } else {
        RegionOp::Subtract
    };
    objects::law_last_operation_wins(
        before,
        objects::RegionRect { op, x, y, width, height },
        px,
        py,
    );
}

/// How small and how large a window may be is what its client says, width first.
pub proof fn law_a_window_has_the_limits_it_is_given(s: State, r: Request, width: i32, height: i32)
    requires
        s.xdg_toplevels.contains_key(r.key()),
        width >= 0 && height >= 0,
    ensures
        ({
            let before = s.xdg_toplevels[r.key()];
            let after = s.xdg_toplevel_handled(r).xdg_toplevels[r.key()];
            &&& asks(r, 8, seq![w(width), w(height)]) ==> after.min_size == (width, height)
                && after.max_size == before.max_size
            &&& asks(r, 7, seq![w(width), w(height)]) ==> after.max_size == (width, height)
                && after.min_size == before.min_size
        }),
{
    if asks(r, 8, seq![w(width), w(height)]) {
        lemma_asked_two(r, 8, width, height);
    }
    if asks(r, 7, seq![w(width), w(height)]) {
        lemma_asked_two(r, 7, width, height);
    }
}

/// A buffer in a pool is where in it its client says, and of the size it says:
/// how far in, how wide, how high, how far apart its rows are, and in which
/// format.
pub proof fn law_a_buffer_is_as_it_was_described(
    s: State,
    r: Request,
    id: u32,
    offset: i32,
    width: i32,
    height: i32,
    stride: i32,
    format: u32,
)
    requires
        asks(r, 0, seq![id, w(offset), w(width), w(height), w(stride), format]),
        s.can_register(r.client, id),
    ensures
        ({
            let t = s.wl_shm_pool_handled(r, true);
            let b = t.buffers[(r.client, id)];
            &&& t.buffers.contains_key((r.client, id))
            &&& b.width == width && b.height == height
            &&& b.kind matches BufferKindView::Shm(shm) && shm.pool_id == r.object && shm.offset
                == offset && shm.stride == stride && shm.format == format && shm.damage is None
        }),
{
    let words = seq![id, w(offset), w(width), w(height), w(stride), format];
    lemma_asked(r, 0, words);
    assert(wire::word_at(r.args, 4 * 0int) == Some(words[0]));
    assert(wire::word_at(r.args, 4 * 5int) == Some(words[5]));
    lemma_asked_signed(r, 0, words, 1, offset);
    lemma_asked_signed(r, 0, words, 2, width);
    lemma_asked_signed(r, 0, words, 3, height);
    lemma_asked_signed(r, 0, words, 4, stride);
}

/// A client the pointer is on has the cursor it asks for: its surface, with the
/// hotspot as far right and as far down as it says. With no surface the cursor is
/// hidden.
pub proof fn law_a_client_has_the_cursor_it_asks_for(
    s: State,
    r: Request,
    serial: u32,
    surface: u32,
    x: i32,
    y: i32,
)
    requires
        asks(r, 0, seq![serial, surface, w(x), w(y)]),
        s.pointer_enter_serial.contains_key(r.client) && s.pointer_enter_serial[r.client] == serial,
        s.pointer_surface matches Some(on) && on.0 == r.client,
        surface != 0 ==> s.surfaces.contains_key((r.client, surface)) && s.surfaces[(
            r.client,
            surface,
        )].buffer_id is Some && !s.has_other_role((r.client, surface)),
    ensures
        s.wl_pointer_handled(r).cursor_picked() == if surface == 0 {
            CursorPick::Hidden
        } else {
            CursorPick::Surface((r.client, surface), x, y)
        },
{
    let words = seq![serial, surface, w(x), w(y)];
    lemma_asked(r, 0, words);
    assert(wire::word_at(r.args, 4 * 0int) == Some(words[0]));
    assert(wire::word_at(r.args, 4 * 1int) == Some(words[1]));
    lemma_asked_signed(r, 0, words, 2, x);
    lemma_asked_signed(r, 0, words, 3, y);
}

} // verus!

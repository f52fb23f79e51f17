//! What lies inside what: a point in a surface, a surface on an output, an image
//! in its memory.

use crate::asked;
use crate::dmabuf::DmabufFormatView;
use crate::frames;
use crate::hits;
use crate::objects::{self, BufferParams, DmabufPlane, PendingPlane, RegionOp, RegionRect};
use crate::protocol::zwp_linux_buffer_params::{self, DescriptionView};
use crate::seqs;
use crate::shared::{OutputId, OutputView};
use crate::state::State;
use crate::wire::{self, Fd, Request};
use crate::workspace::ClientObjectId;
use vstd::prelude::*;

verus! {

/// A point is inside a rectangle with this corner and of this size.
pub open spec fn inside(x: int, y: int, corner: (i32, i32), size: (i32, i32)) -> bool {
    &&& corner.0 <= x < corner.0 + size.0
    &&& corner.1 <= y < corner.1 + size.1
}

/// A rectangle covers something, and ends where a coordinate can still say so.
pub open spec fn solid(corner: (i32, i32), size: (i32, i32)) -> bool {
    &&& 0 < size.0 && corner.0 + size.0 <= i32::MAX
    &&& 0 < size.1 && corner.1 + size.1 <= i32::MAX
}

/// A point is on an output and in a rectangle.
pub open spec fn shared(
    x: int,
    y: int,
    o: OutputView,
    corner: (i32, i32),
    size: (i32, i32),
) -> bool {
    inside(x, y, (o.x, o.y), (o.width, o.height)) && inside(x, y, corner, size)
}

/// A rectangle of a region covers a point.
pub open spec fn covers(r: RegionRect, x: int, y: int) -> bool {
    inside(x, y, (r.x, r.y), (r.width, r.height))
}

/// A surface in sight is on an output exactly if some point of the surface is a
/// point of the output.
pub proof fn law_a_surface_is_on_the_outputs_it_reaches(s: State, key: ClientObjectId, n: int)
    requires
        0 <= n < s.outputs.len(),
        forall|i: int|
            0 <= i < s.outputs.len() && i != n ==> (#[trigger] s.outputs[i]).id != s.outputs[n].id,
        s.surfaces.contains_key(key) && s.surfaces[key].buffer_id is Some && s.is_shown(key),
        solid(s.global_position(key), s.dimensions_of(key)),
        s.outputs[n].width > 0 && s.outputs[n].height > 0,
    ensures
        s.outputs_showing(key).contains(s.outputs[n].id) <==> exists|x: int, y: int| #[trigger]
            shared(x, y, s.outputs[n], s.global_position(key), s.dimensions_of(key)),
{
    let o = s.outputs[n];
    let at = s.global_position(key);
    let size = s.dimensions_of(key);
    let p = frames::showing(at, size);
    let on = s.outputs.filter(p);
    let ids = s.outputs_showing(key);
    seqs::lemma_filter_contains(s.outputs, p, o);
    assert(s.outputs.contains(o));
    if o.overlaps(at, size) {
        assert(p(o));
        let i = choose|i: int| 0 <= i < on.len() && on[i] == o;
        assert(ids[i] == o.id);
        let x = if at.0 < o.x { o.x as int } else { at.0 as int };
        let y = if at.1 < o.y { o.y as int } else { at.1 as int };
        assert(shared(x, y, o, at, size));
    }
    if ids.contains(o.id) {
        let i = choose|i: int| 0 <= i < ids.len() && ids[i] == o.id;
        let other = on[i];
        assert(on.contains(other));
        seqs::lemma_filter_contains(s.outputs, p, other);
        let j = choose|j: int| 0 <= j < s.outputs.len() && s.outputs[j] == other;
        assert(s.outputs[j].id == o.id);
        assert(p(o));
    }
}

proof fn lemma_in_region(rects: Seq<RegionRect>, x: int, y: int)
    requires
        objects::in_region(rects, x, y),
        forall|i: int|
            0 <= i < rects.len() ==> (#[trigger] rects[i]).x + rects[i].width <= i32::MAX
                && rects[i].y + rects[i].height <= i32::MAX && rects[i].width >= 0
                && rects[i].height >= 0,
    ensures
        exists|i: int|
            0 <= i < rects.len() && covers(#[trigger] rects[i], x, y) && rects[i].op
                == RegionOp::Add && forall|j: int|
                i < j < rects.len() ==> !covers(#[trigger] rects[j], x, y),
    decreases rects.len(),
{
    let n = rects.len() - 1;
    assert(rects.last() == rects[n]);
    if !rects.last().holds(x, y) {
        let rest = rects.drop_last();
        assert forall|i: int| 0 <= i < rest.len() implies (#[trigger] rest[i]).x + rest[i].width
            <= i32::MAX && rest[i].y + rest[i].height <= i32::MAX && rest[i].width >= 0
            && rest[i].height >= 0 by {
            assert(rest[i] == rects[i]);
        }
        lemma_in_region(rest, x, y);
        let i = choose|i: int|
            0 <= i < rest.len() && covers(#[trigger] rest[i], x, y) && rest[i].op == RegionOp::Add
                && forall|j: int| i < j < rest.len() ==> !covers(#[trigger] rest[j], x, y);
        assert(rects[i] == rest[i]);
        assert forall|j: int| i < j < rects.len() implies !covers(#[trigger] rects[j], x, y) by {
            if j < n {
                assert(rects[j] == rest[j]);
            }
        }
    } else {
        assert(covers(rects[n], x, y));
    }
}

/// What a point is found to be on is under the point: the point is inside the
/// surface where it was found.
pub proof fn law_what_is_hit_is_under_the_point(s: State, px: i32, py: i32)
    ensures
        s.hit(px, py) matches Some(h) ==> inside(
            px as int,
            py as int,
            (h.surface_x, h.surface_y),
            s.dimensions_of(h.surface),
        ),
{
    hits::law_a_hit_takes_input(s, px, py);
}

/// A surface that takes input only in a region is found only in it: the last
/// rectangle of the region that covers the point was put in, not taken out.
pub proof fn law_what_is_hit_takes_input_there(s: State, px: i32, py: i32)
    requires
        s.hit(px, py) matches Some(h) && s.surfaces[h.surface].input_region matches Some(rects)
            && forall|i: int|
            0 <= i < rects.len() ==> (#[trigger] rects[i]).x + rects[i].width <= i32::MAX
                && rects[i].y + rects[i].height <= i32::MAX && rects[i].width >= 0
                && rects[i].height >= 0,
        s.hit(px, py) matches Some(h) ==> px - h.surface_x <= i32::MAX && py - h.surface_y
            <= i32::MAX,
    ensures
        ({
            let h = s.hit(px, py).unwrap();
            let rects = s.surfaces[h.surface].input_region.unwrap();
            exists|i: int|
                0 <= i < rects.len() && covers(
                    #[trigger] rects[i],
                    px - h.surface_x,
                    py - h.surface_y,
                ) && rects[i].op == RegionOp::Add && forall|j: int|
                    i < j < rects.len() ==> !covers(
                        #[trigger] rects[j],
                        px - h.surface_x,
                        py - h.surface_y,
                    )
        }),
{
    hits::law_a_hit_takes_input(s, px, py);
    let h = s.hit(px, py).unwrap();
    let rects = s.surfaces[h.surface].input_region.unwrap();
    lemma_in_region(rects, px - h.surface_x, py - h.surface_y);
}

/// The edges a point of a window is said to be near are the nearer ones: the
/// left one if there are fewer columns to the first than to the last, the top
/// one if there are fewer rows to the first than to the last.
pub proof fn law_the_nearer_edges_are_near(s: State, surface: ClientObjectId, px: i32, py: i32)
    requires
        s.surfaces.contains_key(surface),
        s.surface_size(surface).0 >= 0 && s.surface_size(surface).1 >= 0,
    ensures
        ({
            let at = s.surfaces[surface].position;
            let size = s.surface_size(surface);
            let left = px - at.0 < at.0 + size.0 - 1 - px;
            let top = py - at.1 < at.1 + size.1 - 1 - py;
            s.edges_near(surface, px, py).0 == (if left { 4int } else { 8 }) + (if top {
                1int
            } else {
                2
            })
        }),
{
}

proof fn lemma_closing_keeps_planes(s: State, fds: Seq<Fd>)
    ensures
        s.all_closed(fds).dmabuf_params == s.dmabuf_params,
    decreases fds.len(),
{
    if fds.len() > 0 {
        lemma_closing_keeps_planes(s, fds.drop_last());
    }
}

/// A plane is where in its memory its client says: how far in it begins, how far
/// apart its rows are, and how it is laid out, in the descriptor that came with
/// it. The other planes stay as they were.
pub proof fn law_a_plane_is_as_it_was_described(
    s: State,
    r: Request,
    fds: Seq<Fd>,
    index: u32,
    offset: u32,
    stride: u32,
    hi: u32,
    lo: u32,
)
    requires
        asked::asks(r, 1, seq![index, offset, stride, hi, lo]),
        index < 4,
        fds.len() > 0,
        s.knows(r.client),
        s.dmabuf_params.contains_key(r.key()),
        !s.dmabuf_params[r.key()].used,
        s.dmabuf_params[r.key()].slot(index as int) is None,
    ensures
        ({
            let before = s.dmabuf_params[r.key()];
            let after = s.zwp_linux_buffer_params_handled(r, fds, 0, true).dmabuf_params[r.key()];
            &&& after.slot(index as int) matches Some(p) && p.plane == DmabufPlane {
                fd: fds[0],
                offset,
                stride,
            } && p.modifier == hi * 0x1_0000_0000 + lo
            &&& forall|i: int|
                0 <= i < 4 && i != index ==> #[trigger] after.slot(i) == before.slot(i)
            &&& !after.used
        }),
{
    asked::lemma_asked(r, 1, seq![index, offset, stride, hi, lo]);
    let words = seq![index, offset, stride, hi, lo];
    assert(wire::word_at(r.args, 4 * 0int) == Some(words[0]));
    assert(wire::word_at(r.args, 4 * 1int) == Some(words[1]));
    assert(wire::word_at(r.args, 4 * 2int) == Some(words[2]));
    assert(wire::word_at(r.args, 4 * 3int) == Some(words[3]));
    assert(wire::word_at(r.args, 4 * 4int) == Some(words[4]));
    let params = s.dmabuf_params[r.key()].with_slot(
        index as int,
        PendingPlane {
            plane: DmabufPlane { fd: fds[0], offset, stride },
            modifier: zwp_linux_buffer_params::joined_halves(hi, lo),
        },
    );
    let t = State { dmabuf_params: s.dmabuf_params.insert(r.key(), params), ..s };
    lemma_closing_keeps_planes(t, fds.skip(1));
}

/// An image that is made has the size, format and planes that were asked for,
/// and where its layout and the size of its memory are known, every row of its
/// first plane lies inside that memory.
pub proof fn law_an_image_lies_in_its_memory(
    params: BufferParams,
    formats: Seq<DmabufFormatView>,
    width: i32,
    height: i32,
    format: u32,
    flags: u32,
    size: i64,
    row: int,
)
    requires
        0 <= row < height,
    ensures
        zwp_linux_buffer_params::description(params, formats, width, height, format, flags, size) matches
        DescriptionView::Made(image) ==> {
            &&& image.width == width && image.height == height && image.fourcc == format
            &&& !params.used && width > 0 && flags == 0
            &&& image.planes.len() >= 1
            &&& params.plane0 matches Some(p) && image.planes[0] == p.plane && image.modifier
                == p.modifier
            &&& params.plane1 matches Some(p) ==> image.planes[1] == p.plane && image.modifier
                == p.modifier
            &&& params.plane2 matches Some(p) ==> image.planes[2] == p.plane && image.modifier
                == p.modifier
            &&& params.plane3 matches Some(p) ==> image.planes[3] == p.plane && image.modifier
                == p.modifier
            &&& size > 0 && image.modifier == 0 ==> image.planes[0].offset + image.planes[0].stride
                * row + 4 * width <= size
        },
{
    if zwp_linux_buffer_params::description(
        params,
        formats,
        width,
        height,
        format,
        flags,
        size,
    ) is Made {
        let planes = params.described();
        assert(params.plane0 matches Some(p) ==> planes[0] == p);
        assert(params.plane1 matches Some(p) ==> planes[1] == p);
        assert(params.plane2 matches Some(p) ==> planes[2] == p);
        assert(params.plane3 matches Some(p) ==> planes[3] == p);
        let stride = planes[0].plane.stride as int;
        assert(stride * row <= stride * (height - 1)) by (nonlinear_arith)
            requires
                0 <= stride,
                row <= height - 1,
        ;
    }
}

/// Telling someone something, or taking a popup off the stack, changes nothing
/// about where surfaces are.
proof fn lemma_same_sight(a: State, b: State, popup: ClientObjectId)
    requires
        b == (State { clients: b.clients, grabbed_popups: b.grabbed_popups, ..a }),
    ensures
        b.surface_of_popup(popup) == a.surface_of_popup(popup),
        under_pointer(b, popup) == under_pointer(a, popup),
{
}

/// A popup is under the pointer.
pub open spec fn under_pointer(s: State, popup: ClientObjectId) -> bool {
    s.surface_of_popup(popup) matches Some(k) && inside(
        s.pixel().0 as int,
        s.pixel().1 as int,
        s.global_position(k),
        s.dimensions_of(k),
    )
}

/// A press takes the popups in front away until one is under the pointer: those
/// that go are the ones in front that it is not on, those behind stay as they
/// were, and what is in front then is under the pointer.
pub proof fn law_a_press_dismisses_the_popups_it_is_not_on(s: State)
    ensures
        ({
            let left = s.popups_dismissed().0.grabbed_popups;
            &&& left.len() <= s.grabbed_popups.len()
            &&& left == s.grabbed_popups.take(left.len() as int)
            &&& left.len() > 0 ==> under_pointer(s, left.last())
            &&& forall|i: int|
                left.len() <= i < s.grabbed_popups.len() ==> !under_pointer(
                    s,
                    #[trigger] s.grabbed_popups[i],
                )
            &&& s.popups_dismissed().1 <==> exists|i: int|
                left.len() <= i < s.grabbed_popups.len() && s.surface_of_popup(
                    #[trigger] s.grabbed_popups[i],
                ) is Some
        }),
    decreases s.grabbed_popups.len(),
{
    let all = s.grabbed_popups;
    if all.len() > 0 {
        let top = all.last();
        let n = all.len() - 1;
        assert(all[n] == top);
        if !under_pointer(s, top) {
            let popped = State { grabbed_popups: all.drop_last(), ..s };
            let next = if s.surface_of_popup(top) is Some {
                popped.popup_done_told(top.0, top.1)
            } else {
                popped
            };
            assert(next == (State { clients: next.clients, grabbed_popups: all.drop_last(), ..s }));
            law_a_press_dismisses_the_popups_it_is_not_on(next);
            let left = next.popups_dismissed().0.grabbed_popups;
            assert(s.popups_dismissed().0 == next.popups_dismissed().0);
            assert(left =~= all.take(left.len() as int));
            if left.len() > 0 {
                lemma_same_sight(s, next, left.last());
            }
            assert forall|i: int| left.len() <= i < all.len() implies !under_pointer(
                s,
                #[trigger] all[i],
            ) by {
                if i < n {
                    assert(next.grabbed_popups[i] == all[i]);
                    lemma_same_sight(s, next, all[i]);
                }
            }
            if s.surface_of_popup(top) is None {
                if next.popups_dismissed().1 {
                    let i = choose|i: int|
                        left.len() <= i < next.grabbed_popups.len() && next.surface_of_popup(
                            #[trigger] next.grabbed_popups[i],
                        ) is Some;
                    assert(next.grabbed_popups[i] == all[i]);
                    lemma_same_sight(s, next, all[i]);
                } else {
                    assert forall|i: int| left.len() <= i < all.len() implies s.surface_of_popup(
                        #[trigger] all[i],
                    ) is None by {
                        if i < n {
                            assert(next.grabbed_popups[i] == all[i]);
                            lemma_same_sight(s, next, all[i]);
                        }
                    }
                }
            } else {
                assert(s.popups_dismissed().1);
                assert(s.surface_of_popup(all[n]) is Some);
            }
        } else {
            assert(s.popups_dismissed() == (s, false));
            assert(all.take(all.len() as int) =~= all);
        }
    }
}

/// The state some ticks on.
pub open spec fn after_ticks(s: State, n: nat) -> State
    decreases n,
{
    if n == 0 {
        s
    } else {
        after_ticks(s, (n - 1) as nat).bells_expired()
    }
}

/// A bell flashes for eight ticks, neither more nor fewer, and silences no other.
pub proof fn law_a_bell_flashes_for_its_time(s: State, id: OutputId, n: nat)
    ensures
        after_ticks(s.bell_rung(id), n).bells.contains_key(id) <==> n < 8,
        n < 8 ==> after_ticks(s.bell_rung(id), n).bells[id] == 8 - n,
        forall|other: OutputId|
            other != id && s.bells.contains_key(other) ==> s.bell_rung(
                id,
            ).bells.contains_key(other) && #[trigger] s.bell_rung(id).bells[other]
                == s.bells[other],
    decreases n,
{
    if n > 0 {
        law_a_bell_flashes_for_its_time(s, id, (n - 1) as nat);
    }
}

} // verus!

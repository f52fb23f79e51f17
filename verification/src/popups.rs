//! What becomes of popups: that they stay on the screen, and that their clients
//! know where they are.

use crate::heard;
use crate::positioner::{self, XdgPositionerConstraintAdjustment};
use crate::protocol::{xdg_popup, xdg_surface};
use crate::shared::OutputView;
use crate::state::State;
use crate::windows;
use crate::wire::{self, Request};
use crate::workspace::ClientObjectId;
use vstd::prelude::*;

verus! {

/// A rectangle lies on an output.
pub open spec fn on_output(o: OutputView, x: int, y: int, width: int, height: int) -> bool {
    &&& o.x <= x && x + width <= o.x + o.width
    &&& o.y <= y && y + height <= o.y + o.height
}

impl State {
    /// A surface is part of a window on this output.
    pub open spec fn is_on(self, surface: ClientObjectId, o: OutputView) -> bool {
        self.workspaces.output_of(self.root_of(surface)) matches Some(id) && self.output(id)
            == Some(o)
    }
}

/// No coordinate of an output seen from a point is out of range.
pub open spec fn comparable(o: OutputView, p: (i32, i32)) -> bool {
    &&& 0 < o.width && 0 < o.height
    &&& i32::MIN < o.x - p.0 && o.x - p.0 + o.width < i32::MAX
    &&& i32::MIN < o.y - p.1 && o.y - p.1 + o.height < i32::MAX
}

/// A popup that may slide along an axis and is no larger than the output its
/// parent is on ends up within that output along that axis, at the size that was
/// asked for.
pub proof fn law_a_popup_that_may_slide_stays_on_the_screen(
    s: State,
    key: ClientObjectId,
    parent: ClientObjectId,
    o: OutputView,
)
    requires
        s.xdg_positioners.contains_key(key),
        s.is_on(parent, o),
        comparable(o, s.global_position(parent)),
        0 < s.xdg_positioners[key].width <= o.width,
        0 < s.xdg_positioners[key].height <= o.height,
    ensures
        s.popup_placement(key, parent) is Some,
        ({
            let p = s.global_position(parent);
            let (x, y, width, height) = s.popup_placement(key, parent).unwrap();
            let pos = s.xdg_positioners[key];
            &&& pos.allows(XdgPositionerConstraintAdjustment::SlideX) ==> o.x <= p.0 + x && p.0 + x
                + width <= o.x + o.width && width == pos.width
            &&& pos.allows(XdgPositionerConstraintAdjustment::SlideY) ==> o.y <= p.1 + y && p.1 + y
                + height <= o.y + o.height && height == pos.height
            &&& pos.allows(XdgPositionerConstraintAdjustment::SlideX) && pos.allows(
                XdgPositionerConstraintAdjustment::SlideY,
            ) ==> on_output(o, p.0 + x, p.1 + y, width as int, height as int)
        }),
{
}

/// A popup that is wholly on the output its parent is on where the client wants
/// it is left there.
pub proof fn law_a_popup_on_the_screen_is_left_alone(
    s: State,
    key: ClientObjectId,
    parent: ClientObjectId,
    o: OutputView,
)
    requires
        s.xdg_positioners.contains_key(key),
        s.is_on(parent, o),
        comparable(o, s.global_position(parent)),
        ({
            let p = s.global_position(parent);
            let (x, y, width, height) = positioner::placement(s.xdg_positioners[key], None);
            on_output(o, p.0 + x, p.1 + y, width as int, height as int)
        }),
    ensures
        s.popup_placement(key, parent) == Some(
            positioner::placement(s.xdg_positioners[key], None),
        ),
{
}

/// Moving a window and its output together moves its popups along: where a
/// popup is relative to its parent depends only on where the parent is on the
/// output.
pub proof fn law_popups_do_not_mind_where_the_output_is(
    s: State,
    t: State,
    key: ClientObjectId,
    parent: ClientObjectId,
    o: OutputView,
    q: OutputView,
)
    requires
        s.is_on(parent, o),
        t.is_on(parent, q),
        comparable(o, s.global_position(parent)),
        comparable(q, t.global_position(parent)),
        s.xdg_positioners == t.xdg_positioners,
        o.width == q.width && o.height == q.height,
        o.x - s.global_position(parent).0 == q.x - t.global_position(parent).0,
        o.y - s.global_position(parent).1 == q.y - t.global_position(parent).1,
    ensures
        s.popup_placement(key, parent) == t.popup_placement(key, parent),
{
}

/// A popup that is made hangs off its parent where it was placed, and its client
/// is told so: a place and a size, and then a serial to acknowledge.
#[verifier::rlimit(60)]
#[verifier::spinoff_prover]
pub proof fn law_a_popup_is_where_its_client_is_told(
    s: State,
    r: Request,
    popup: u32,
    parent_xdg: u32,
    positioner: u32,
    place: (i32, i32, i32, i32),
)
    requires
        r.word(0) == Some(popup) && r.word(4) == Some(parent_xdg) && r.word(8) == Some(positioner),
        r.op == 2,
        s.can_register(r.client, popup),
        heard::ready(s, r.client, 2),
        s.surface_of_xdg(r.key()) matches Some(child) && s.surfaces.contains_key(child),
        s.surface_of_xdg((r.client, parent_xdg)) matches Some(parent) && s.surfaces.contains_key(
            parent,
        ) && !s.under_surface(parent, s.surface_of_xdg(r.key()).unwrap()),
        s.popup_placement(
            (r.client, positioner),
            s.surface_of_xdg((r.client, parent_xdg)).unwrap(),
        ) == Some(place),
        -0x100_0000 <= place.0 <= 0x100_0000 && -0x100_0000 <= place.1 <= 0x100_0000,
    ensures
        ({
            let t = s.xdg_surface_handled(r);
            let child = s.surface_of_xdg(r.key()).unwrap();
            let parent = s.surface_of_xdg((r.client, parent_xdg)).unwrap();
            let said = heard::heard(s, t, r.client);
            &&& t.surfaces[child].subsurface_position == (place.0, place.1)
            &&& t.surfaces[child].parent == Some(parent.1)
            &&& t.surfaces[parent].children == s.surfaces[parent].children.push(child.1)
            &&& t.surface_of_popup((r.client, popup)) == Some(child)
            &&& said.len() == 2
            &&& said[0].object_id == popup && said[0].op_code == 0
            &&& heard::reads_signed(said[0], 0, place.0 as int)
            &&& heard::reads_signed(said[0], 1, place.1 as int)
            &&& heard::reads_signed(said[0], 2, place.2 as int)
            &&& heard::reads_signed(said[0], 3, place.3 as int)
            &&& heard::says(said[1], r.object, 0, seq![s.next_serial])
        }),
{
    let t = s.xdg_surface_handled(r);
    let child = s.surface_of_xdg(r.key()).unwrap();
    let parent = s.surface_of_xdg((r.client, parent_xdg)).unwrap();
    assert(child != parent) by {
        if child == parent {
            assert(s.under_surface(parent, child));
        }
    }
    let (x, y, width, height) = place;
    let (a, b, c, d) = (
        wire::signed_word(x),
        wire::signed_word(y),
        wire::signed_word(width),
        wire::signed_word(height),
    );
    let first = wire::told4(popup, xdg_popup::CONFIGURE, a, b, c, d);
    let second = wire::told1(r.object, xdg_surface::CONFIGURE, s.next_serial);
    heard::lemma_told_words(popup, xdg_popup::CONFIGURE, a, b, c, d, 0, 0);
    heard::lemma_told_words(r.object, xdg_surface::CONFIGURE, s.next_serial, 0, 0, 0, 0, 0);
    let words = seq![a, b, c, d];
    heard::lemma_said(first, popup, xdg_popup::CONFIGURE, words);
    assert(heard::reads(first, 0, words[0]) && heard::reads(first, 1, words[1]) && heard::reads(
        first,
        2,
        words[2],
    ) && heard::reads(first, 3, words[3]));
    heard::lemma_signed_word(first, 0, x);
    heard::lemma_signed_word(first, 1, y);
    heard::lemma_signed_word(first, 2, width);
    heard::lemma_signed_word(first, 3, height);
    let before = s.clients[r.client].outbox;
    let s1 = s.registered_as(r, popup, crate::client::ObjectType::XdgPopup);
    assert(s1.clients[r.client].outbox == before);
    let s2 = s1.popup_created(r.client, popup, r.object, parent_xdg, x, y, width, height);
    assert(s2.surfaces == s.surfaces && s2.clients == s1.clients);
    assert(s2.under_surface(parent, child) == s.under_surface(parent, child));
    assert(s2.surface_of_xdg(r.key()) == Some(child));
    assert(s2.surface_of_xdg((r.client, parent_xdg)) == Some(parent));
    assert(windows::offset_held(x as int, y as int) == (x, y));
    let s3 = s2.surface_hung(child, parent, (x, y));
    assert(s3.clients == s1.clients);
    assert(s3.surfaces[child].subsurface_position == (x, y));
    assert(s3.surfaces[child].parent == Some(parent.1));
    assert(s3.surfaces[parent].children == s.surfaces[parent].children.push(child.1));
    let s4 = s3.popup_configured(r.client, popup, x, y, width, height);
    assert(s4.clients[r.client].outbox == before.push(first));
    assert(t == s4.xdg_surface_configured(r.client, r.object));
    assert(t.clients[r.client].outbox == before.push(first).push(second));
    assert(before.push(first).push(second).skip(before.len() as int) =~= seq![first, second]);
}

} // verus!

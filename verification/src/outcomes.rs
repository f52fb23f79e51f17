//! What comes of what the outside world does: an output that is gone, a verdict on
//! an image, a click on a window.

use crate::compositor;
use crate::focus;
use crate::frames;
use crate::heard;
use crate::hits::HitResult;
use crate::objects::{BufferKindView, DmabufImageView, PendingImportView};
use crate::pointer;
use crate::protocol::zwp_linux_buffer_params;
use crate::seqs;
use crate::shared::{MouseButton, OutputId, OutputView};
use crate::state::{self, State};
use crate::table;
use crate::wire::{self, Fd};
use crate::workspace::ClientObjectId;
use vstd::prelude::*;

verus! {

/// A surface is on an output, or is known to be.
pub open spec fn is_on(s: State, key: ClientObjectId, o: OutputId) -> bool {
    s.surfaces[key].visible_on.contains(o)
}

proof fn lemma_taken_off(
    s: State,
    keys: Seq<ClientObjectId>,
    id: OutputId,
    key: ClientObjectId,
    o: OutputId,
)
    requires
        s.surfaces.contains_key(key),
    ensures
        ({
            let t = state::each(s, keys, compositor::taking_off(id));
            let stays = !keys.contains(key) || o != id;
            &&& t == State { surfaces: t.surfaces, ..s }
            &&& t.surfaces.dom() == s.surfaces.dom()
            &&& is_on(t, key, o) <==> is_on(s, key, o) && stays
            &&& t.known_on(key, o) <==> s.known_on(key, o) && stays
        }),
    decreases keys.len(),
{
    if keys.len() > 0 {
        let rest = keys.drop_last();
        let last = keys.last();
        lemma_taken_off(s, rest, id, key, o);
        let before = state::each(s, rest, compositor::taking_off(id));
        let t = state::each(s, keys, compositor::taking_off(id));
        assert(t == before.surface_taken_off(last, id));
        assert(t.surfaces.dom() =~= before.surfaces.dom());
        assert(keys.contains(key) <==> rest.contains(key) || last == key) by {
            if rest.contains(key) {
                let i = choose|i: int| 0 <= i < rest.len() && rest[i] == key;
                assert(keys[i] == key);
            }
            assert(keys[keys.len() - 1] == last);
            if keys.contains(key) && last != key {
                let i = choose|i: int| 0 <= i < keys.len() && keys[i] == key;
                assert(rest[i] == key);
            }
        }
        seqs::lemma_filter_contains(
            before.surfaces[key].visible_on,
            frames::other_output(id),
            o,
        );
        seqs::lemma_filter_contains(
            before.surfaces[key].entered_outputs,
            frames::other_output(id),
            o,
        );
    }
}

/// When an output is gone, it and no other is off the list; no surface is on it
/// or is known to be, and every surface is on the others it was on.
pub proof fn law_an_output_that_is_gone_shows_nothing(
    s: State,
    id: OutputId,
    o: OutputView,
    key: ClientObjectId,
    other: OutputId,
)
    requires
        s.surfaces.dom().finite(),
        s.surfaces.contains_key(key),
    ensures
        ({
            let t = s.output_removed(id);
            &&& t.outputs.contains(o) <==> s.outputs.contains(o) && o.id != id
            &&& t.surfaces.dom() == s.surfaces.dom()
            &&& is_on(t, key, other) <==> is_on(s, key, other) && other != id
            &&& t.known_on(key, other) <==> s.known_on(key, other) && other != id
            &&& !t.bells.contains_key(id) && !t.output_global_names.contains_key(id)
        }),
{
    let keys = table::ordered(s.surfaces.dom());
    table::lemma_finite_listed(s.surfaces.dom());
    assert(keys.contains(key));
    seqs::lemma_filter_contains(s.outputs, compositor::not_named(id), o);
    let listed = State {
        outputs: s.outputs.filter(compositor::not_named(id)),
        output_global_names: s.output_global_names.remove(id),
        bells: s.bells.remove(id),
        ..s
    };
    lemma_taken_off(listed, keys, id, key, other);
}

proof fn lemma_letting_go_keeps_clients(s: State, fds: Seq<Fd>)
    ensures
        s.let_go(fds).clients == s.clients,
        s.let_go(fds).buffers == s.buffers,
    decreases fds.len(),
{
    if fds.len() > 0 {
        lemma_letting_go_keeps_clients(s, fds.drop_last());
    }
}

/// An image is what a buffer holds, and the buffer is of this size.
pub open spec fn buffer_holds(
    s: State,
    key: ClientObjectId,
    image: DmabufImageView,
    width: i32,
    height: i32,
) -> bool {
    &&& s.buffers.contains_key(key)
    &&& s.buffers[key].width == width && s.buffers[key].height == height
    &&& s.buffers[key].kind == BufferKindView::Dmabuf(image)
}

/// A client whose image was taken in is told the name of its buffer, which holds
/// the image and is of the size that was asked for.
pub proof fn law_an_image_taken_in_becomes_a_buffer(s: State, pending: PendingImportView)
    requires
        pending.immediate is None,
        heard::ready(s, pending.client_id, 1),
        s.clients[pending.client_id].next_server_id < u32::MAX,
    ensures
        ({
            let t = s.verdict_given(pending, true);
            let said = heard::heard(s, t, pending.client_id);
            let id = s.clients[pending.client_id].next_server_id;
            &&& said.len() == 1
            &&& heard::says(said[0], pending.params_id, 0, seq![id])
            &&& buffer_holds(
                t,
                (pending.client_id, id),
                pending.image,
                pending.width,
                pending.height,
            )
        }),
{
    let client = pending.client_id;
    let c = s.clients[client];
    let id = c.next_server_id;
    let m = wire::told1(pending.params_id, zwp_linux_buffer_params::CREATED, id);
    let named = s.with_client(client, c.allocated(crate::client::ObjectType::WlBuffer));
    let sent = named.sent(client, m);
    heard::lemma_told_words(
        pending.params_id,
        zwp_linux_buffer_params::CREATED,
        id,
        0,
        0,
        0,
        0,
        0,
    );
    let key = (client, id);
    if sent.buffers.contains_key(key) {
        let without = State { buffers: sent.buffers.remove(key), ..sent };
        if let BufferKindView::Dmabuf(image) = sent.buffers[key].kind {
            lemma_letting_go_keeps_clients(without, crate::buffers::plane_fds(image.planes));
        }
    }
    let t = s.verdict_given(pending, true);
    assert(t.clients == sent.clients);
    assert(sent.clients[client].outbox == c.outbox.push(m));
    assert(c.outbox.push(m).skip(c.outbox.len() as int) =~= seq![m]);
}

/// A client whose image was refused is told so on what it described it with. A
/// buffer it had named already draws nothing from then on.
pub proof fn law_an_image_refused_is_told(s: State, pending: PendingImportView)
    requires
        heard::ready(s, pending.client_id, 1),
        s.dmabuf_params.contains_key((pending.client_id, pending.params_id)),
        pending.immediate matches Some((buffer, serial)) ==> s.buffers.contains_key(
            (pending.client_id, buffer),
        ) && s.buffers[(pending.client_id, buffer)].content_serial == serial,
    ensures
        ({
            let t = s.verdict_given(pending, false);
            let said = heard::heard(s, t, pending.client_id);
            &&& said.len() == 1
            &&& heard::says(said[0], pending.params_id, 1, Seq::empty())
            &&& pending.immediate matches Some((buffer, _)) ==> t.buffers.contains_key(
                (pending.client_id, buffer),
            ) && t.buffers[(pending.client_id, buffer)].kind == BufferKindView::Failed
        }),
{
    let client = pending.client_id;
    let c = s.clients[client];
    let m = wire::told0(pending.params_id, zwp_linux_buffer_params::FAILED);
    heard::lemma_told_words(pending.params_id, zwp_linux_buffer_params::FAILED, 0, 0, 0, 0, 0, 0);
    let t = s.verdict_given(pending, false);
    assert(t.clients[client].outbox == c.outbox.push(m));
    assert(c.outbox.push(m).skip(c.outbox.len() as int) =~= seq![m]);
}

proof fn lemma_entering_keeps_focus(
    s: State,
    pointers: Seq<u32>,
    surface: ClientObjectId,
    x: i32,
    y: i32,
)
    ensures
        ({
            let t = state::each(s, pointers, pointer::entering(surface, x, y));
            t.focused_surface == s.focused_surface && t.pointer_surface == s.pointer_surface
        }),
    decreases pointers.len(),
{
    if pointers.len() > 0 {
        lemma_entering_keeps_focus(s, pointers.drop_last(), surface, x, y);
    }
}

proof fn lemma_clicking_keeps_focus(
    s: State,
    pointers: Seq<u32>,
    client: u32,
    time: u32,
    button: u32,
    pressed: bool,
)
    ensures
        ({
            let t = state::each(s, pointers, pointer::clicking(client, time, button, pressed));
            t.focused_surface == s.focused_surface && t.pointer_surface == s.pointer_surface
        }),
    decreases pointers.len(),
{
    if pointers.len() > 0 {
        lemma_clicking_keeps_focus(s, pointers.drop_last(), client, time, button, pressed);
    }
}

/// A click on a window gives that window the focus, and a click on a window that
/// did not have it gives the surface that was clicked the pointer.
pub proof fn law_a_click_focuses_what_it_is_on(s: State, time: u32, button: u32, hit: HitResult)
    requires
        s.grabbed_popups.len() == 0,
        s.hit_here() == Some(hit),
    ensures
        ({
            let t = s.press_delivered(time, button);
            &&& t.focused_surface == Some(hit.toplevel)
            &&& s.focused_surface != Some(hit.toplevel) ==> t.pointer_surface == Some(hit.surface)
        }),
{
    assert(s.popups_dismissed() == (s, false));
    let clicked = s.window_clicked(hit);
    if s.focused_surface != Some(hit.toplevel) {
        let raised = s.surface_raised(hit.toplevel).dirtied();
        focus::law_the_focus_goes_where_it_is_sent(raised, hit.toplevel);
        let here = State {
            pointer_surface: Some(hit.surface),
            ..raised.focus_switched(hit.toplevel)
        };
        lemma_entering_keeps_focus(
            here,
            here.pointers_of(hit.surface.0),
            hit.surface,
            wire::local(s.cursor_x, hit.surface_x),
            wire::local(s.cursor_y, hit.surface_y),
        );
    }
    if let Some(surface) = clicked.pointer_surface {
        lemma_clicking_keeps_focus(
            clicked,
            clicked.pointers_of(surface.0),
            surface.0,
            time,
            button,
            true,
        );
    }
}

/// With Alt held, a press on a window takes hold of it: the left button to move
/// it, the right one to resize it by the edges it is nearest to, and the middle
/// one for neither.
pub proof fn law_alt_takes_hold_of_a_window(
    s: State,
    time: u32,
    button: MouseButton,
    hit: HitResult,
)
    requires
        s.pointer_grab is None && s.drag is None,
        s.pressed_keys.contains(56) || s.pressed_keys.contains(100),
        s.hit_here() == Some(hit),
        s.toplevel_for_surface(hit.toplevel) is Some,
        s.surfaces.contains_key(hit.toplevel),
        s.surface_size(hit.toplevel).0 > 0 && s.surface_size(hit.toplevel).1 > 0,
    ensures
        ({
            let t = s.button_acted(time, button, true);
            match button {
                MouseButton::Left => t.pointer_grab matches Some(g) && g.surface == hit.toplevel
                    && g.kind is Move,
                MouseButton::Right => t.pointer_grab matches Some(g) && g.surface == hit.toplevel
                    && g.kind is Resize && g.kind->edges == s.edges_near(
                    hit.toplevel,
                    s.pixel().0,
                    s.pixel().1,
                ),
                MouseButton::Middle => t.pointer_grab is None,
            }
        }),
{
    let raised = s.surface_raised(hit.toplevel);
    focus::law_the_focus_goes_where_it_is_sent(raised, hit.toplevel);
    let here = raised.focus_switched(hit.toplevel);
    assert(here.surfaces == s.surfaces && here.xdg_surfaces == s.xdg_surfaces);
    assert(here.toplevel_for_surface(hit.toplevel) == s.toplevel_for_surface(hit.toplevel));
    assert(here.surface_size(hit.toplevel) == s.surface_size(hit.toplevel));
    assert(here.pixel() == s.pixel());
}

} // verus!

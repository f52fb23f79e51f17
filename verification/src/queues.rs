//! Who is owed which descriptors: those a client has sent stay in line until a
//! request claims them.

use crate::buffers;
use crate::client::{ClientView, ObjectType};
use crate::dmabuf::DmabufFormatView;
use crate::focus;
use crate::grabs;
use crate::objects::{DataOfferView, DragView, OfferKind};
use crate::protocol::{
    self, wl_data_device, wl_output, wl_registry, zwp_linux_buffer_params, zwp_linux_dmabuf, Outside,
};
use crate::shared::OutputId;
use crate::state::{self, State};
use crate::table;
use crate::transfer;
use crate::wire::{self, Fd, Message, Request};
use crate::workspace::ClientObjectId;
use vstd::prelude::*;

verus! {

/// The descriptors of each client that no request has claimed.
#[verifier::opaque]
pub open spec fn queues(clients: Map<u32, ClientView>) -> Map<u32, Seq<Fd>> {
    clients.map_values(|c: ClientView| c.fd_queue)
}

/// Putting a client in its own place that has the same descriptors in line
/// touches no queue.
proof fn lemma_clients()
    ensures
        forall|s: State, id: u32, c: ClientView|
            s.clients.contains_key(id) && s.clients[id].fd_queue == c.fd_queue ==> queues(
                (#[trigger] s.with_client(id, c)).clients,
            ) == queues(s.clients),
{
    reveal(queues);
    assert forall|s: State, id: u32, c: ClientView|
        s.clients.contains_key(id) && s.clients[id].fd_queue == c.fd_queue implies queues(
        (#[trigger] s.with_client(id, c)).clients,
    ) == queues(s.clients) by {
        assert(queues(s.with_client(id, c).clients) =~= queues(s.clients));
    }
}

/// Telling a client something, and its naming of things, touches no queue.
proof fn lemma_told()
    ensures
        forall|s: State, id: u32, m: Message| queues((#[trigger] s.sent(id, m)).clients) == queues(
            s.clients,
        ),
        forall|s: State, id: u32, o: u32, code: u32, m: Seq<char>|
            queues((#[trigger] s.errored(id, o, code, m)).clients) == queues(s.clients),
        forall|s: State, id: u32, o: u32, t: ObjectType|
            queues((#[trigger] s.registered(id, o, t)).clients) == queues(s.clients),
        forall|s: State, id: u32, o: u32, t: ObjectType, v: u32|
            queues((#[trigger] s.registered_with_version(id, o, t, v)).clients) == queues(s.clients),
        forall|s: State, id: u32, o: u32| queues((#[trigger] s.unregistered(id, o)).clients) == queues(
            s.clients,
        ),
{
    lemma_clients();
}

/// What touches no queue does not however often it is done.
proof fn lemma_fold<T>(s: State, items: Seq<T>, f: spec_fn(State, T) -> State)
    requires
        forall|a: State, t: T| queues((#[trigger] f(a, t)).clients) == queues(a.clients),
    ensures
        queues(state::each(s, items, f).clients) == queues(s.clients),
{
    let inv = |a: State| queues(a.clients) == queues(s.clients);
    state::lemma_each_keeps(s, items, f, inv);
}

/// Letting go of what a buffer was made of touches no client.
proof fn lemma_memory()
    ensures
        forall|s: State, fds: Seq<Fd>| (#[trigger] s.let_go(fds)).clients == s.clients,
        forall|s: State, key: ClientObjectId| (#[trigger] s.buffer_forgotten(key)).clients
            == s.clients,
{
    assert forall|s: State, fds: Seq<Fd>| (#[trigger] s.let_go(fds)).clients == s.clients by {
        buffers::lemma_letting_go_only_closes(s, fds);
    }
    assert forall|s: State, key: ClientObjectId| (#[trigger] s.buffer_forgotten(key)).clients
        == s.clients by {
        buffers::lemma_forgetting_only_moves_memory(s, key);
    }
}

proof fn lemma_globals_told(s: State, client_id: u32, registry: u32)
    ensures
        queues(s.globals_told(client_id, registry).clients) == queues(s.clients),
{
    lemma_told();
    let key = (client_id, registry);
    lemma_fold(s, wl_registry::static_names(), wl_registry::telling_static(key));
    let t = state::each(s, wl_registry::static_names(), wl_registry::telling_static(key)).dmabuf_told(
        key,
    );
    lemma_fold(t, table::ordered(t.output_global_names.dom()), wl_registry::telling_output(key));
}

proof fn lemma_formats_told(s: State, client_id: u32, dmabuf: u32)
    ensures
        queues(s.formats_told(client_id, dmabuf).clients) == queues(s.clients),
{
    lemma_told();
    let f = zwp_linux_dmabuf::telling_format(client_id, dmabuf);
    assert forall|a: State, t: DmabufFormatView| queues((#[trigger] f(a, t)).clients) == queues(
        a.clients,
    ) by {
        lemma_fold(
            a,
            zwp_linux_dmabuf::advertised(t),
            zwp_linux_dmabuf::telling_modifier(client_id, dmabuf, t.fourcc),
        );
    }
    lemma_fold(s, s.dmabuf_formats, f);
}

proof fn lemma_output_told(s: State, key: ClientObjectId, id: OutputId)
    ensures
        queues(s.output_told(key, id).clients) == queues(s.clients),
{
    lemma_told();
    if s.output(id) is Some {
        let o = s.output(id).unwrap();
        lemma_fold(
            s.sent(key.0, wl_output::geometry_event(key.1, o)),
            o.modes,
            wl_output::telling_mode(key),
        );
    }
}

proof fn lemma_bound(s: State, r: Request, name: u32, version: u32, id: u32)
    ensures
        queues(s.global_bound(r, name, version, id).clients) == queues(s.clients),
{
    lemma_told();
    lemma_clients();
    let named = s.registered_with_version(
        r.client,
        id,
        ObjectType::ZwpLinuxDmabuf,
        wl_registry::lower(version, zwp_linux_dmabuf::VERSION),
    );
    lemma_formats_told(named, r.client, id);
    if s.output_going_by(name) is Some {
        let output = s.output_going_by(name).unwrap();
        let named = s.registered_with_version(
            r.client,
            id,
            ObjectType::WlOutput,
            wl_registry::lower(version, wl_registry::WL_OUTPUT_VERSION),
        );
        lemma_output_told(
            State {
                output_bindings: named.output_bindings.insert((r.client, id), output),
                ..named
            },
            (r.client, id),
            output,
        );
    }
}

proof fn lemma_offer_made(
    s: State,
    client_id: u32,
    device: u32,
    source: ClientObjectId,
    kind: OfferKind,
)
    ensures
        queues(s.offer_made(client_id, device, source, kind).clients) == queues(s.clients),
{
    lemma_told();
    lemma_clients();
    if s.next_offer(client_id) is Some {
        let offer = s.next_offer(client_id).unwrap();
        let c = s.clients[client_id];
        let named = s.with_client(
            client_id,
            c.allocated_with_version(ObjectType::WlDataOffer, c.version(device)),
        );
        let told = named.with_offer(offer, DataOfferView::fresh(client_id, source, kind)).sent(
            client_id,
            wire::told1(device, wl_data_device::DATA_OFFER, offer.1),
        );
        lemma_fold(told, s.mime_types_of(source), wl_data_device::telling_mime(offer));
    }
}

proof fn lemma_selection(s: State, client_id: u32)
    ensures
        queues(s.selection_to_client(client_id).clients) == queues(s.clients),
        forall|a: State, device: u32|
            queues((#[trigger] a.selection_to_device(client_id, device)).clients) == queues(a.clients),
{
    lemma_told();
    assert forall|a: State, device: u32|
        queues((#[trigger] a.selection_to_device(client_id, device)).clients) == queues(a.clients) by {
        if a.selection is Some {
            lemma_offer_made(a, client_id, device, a.selection.unwrap(), OfferKind::Selection);
        }
    }
    lemma_fold(s, s.devices_of(client_id), wl_data_device::telling_selection(client_id));
}

proof fn lemma_focus_switched(s: State, to: ClientObjectId)
    ensures
        queues(s.focus_switched(to).clients) == queues(s.clients),
{
    lemma_told();
    if s.focused_surface != Some(to) {
        let left = match s.focused_surface {
            Some(from) => {
                lemma_fold(s, s.keyboards_of(from.0), focus::unfocusing(from));
                s.keyboards_left(from).activation_told(from, false)
            },
            None => s,
        };
        let here = State { focused_surface: Some(to), ..left };
        lemma_fold(here, here.keyboards_of(to.0), focus::focusing(to));
        lemma_selection(here.keyboards_entered(to).activation_told(to, true), to.0);
    }
}

proof fn lemma_pointer_taken(s: State)
    ensures
        queues(s.pointer_taken().clients) == queues(s.clients),
{
    lemma_told();
    if s.pointer_surface is Some {
        let surface = s.pointer_surface.unwrap();
        let free = State { pointer_surface: None, ..s };
        lemma_fold(free, free.pointers_of(surface.0), grabs::leaving(surface));
    }
}

proof fn lemma_drag_unfocused(s: State)
    ensures
        queues(s.drag_unfocused().clients) == queues(s.clients),
{
    lemma_told();
    if s.drag is Some && s.drag.unwrap().focus is Some {
        let d = s.drag.unwrap();
        let focus = d.focus.unwrap();
        let start = State {
            drag: Some(DragView { focus: None, focus_offers: Seq::empty(), ..d }),
            ..s
        };
        let f = transfer::device_leaving(focus.0);
        lemma_fold(start, start.devices_of(focus.0), f);
        let left = state::each(start, start.devices_of(focus.0), f);
        lemma_fold(left, d.focus_offers, transfer::withdrawing());
    }
}

proof fn lemma_drag_actions_resolved(s: State)
    ensures
        queues(s.drag_actions_resolved().clients) == queues(s.clients),
{
    lemma_told();
    if s.drag is Some {
        lemma_fold(s, s.drag.unwrap().focus_offers, transfer::resolving());
    }
}

proof fn lemma_selection_announced()
    ensures
        forall|s: State| queues((#[trigger] s.selection_announced()).clients) == queues(s.clients),
{
    assert forall|s: State| queues((#[trigger] s.selection_announced()).clients) == queues(
        s.clients,
    ) by {
        if s.focused_surface is Some {
            lemma_selection(s, s.focused_surface.unwrap().0);
        }
    }
}

proof fn lemma_source_retired(s: State, source: ClientObjectId, notify: bool)
    ensures
        queues(s.source_retired(source, notify).clients) == queues(s.clients),
{
    lemma_told();
    lemma_selection_announced();
    lemma_drag_unfocused(State { data_sources: s.data_sources.remove(source), ..s });
}

proof fn lemma_selection_set(s: State, selection: Option<ClientObjectId>)
    ensures
        queues(s.selection_set(selection).clients) == queues(s.clients),
{
    lemma_told();
    lemma_selection_announced();
}

proof fn lemma_wl_display(s: State, r: Request)
    ensures
        queues(s.wl_display_handled(r).clients) == queues(s.clients),
{
    lemma_told();
    if r.word(0) is Some {
        let id = r.word(0).unwrap();
        lemma_globals_told(s.registered(r.client, id, ObjectType::WlRegistry), r.client, id);
    }
}

proof fn lemma_wl_registry(s: State, r: Request)
    ensures
        queues(s.wl_registry_handled(r).clients) == queues(s.clients),
{
    lemma_told();
    assert forall|name: u32, version: u32, id: u32|
        queues((#[trigger] s.global_bound(r, name, version, id)).clients) == queues(s.clients) by {
        lemma_bound(s, r, name, version, id);
    }
}

proof fn lemma_wl_callback(s: State, r: Request)
    ensures
        queues(s.wl_callback_handled(r).clients) == queues(s.clients),
{
    lemma_clients();
}

proof fn lemma_wl_compositor(s: State, r: Request)
    ensures
        queues(s.wl_compositor_handled(r).clients) == queues(s.clients),
{
    lemma_clients();
}

proof fn lemma_wl_surface(s: State, r: Request)
    ensures
        queues(s.wl_surface_handled(r).clients) == queues(s.clients),
{
    lemma_told();
    lemma_drag_unfocused(s);
}

proof fn lemma_wl_region(s: State, r: Request)
    ensures
        queues(s.wl_region_handled(r).clients) == queues(s.clients),
{
    lemma_clients();
}

proof fn lemma_wl_subcompositor(s: State, r: Request)
    ensures
        queues(s.wl_subcompositor_handled(r).clients) == queues(s.clients),
{
    lemma_clients();
}

proof fn lemma_wl_subsurface(s: State, r: Request)
    ensures
        queues(s.wl_subsurface_handled(r).clients) == queues(s.clients),
{
    lemma_clients();
}

proof fn lemma_wl_data_device_manager(s: State, r: Request)
    ensures
        queues(s.wl_data_device_manager_handled(r).clients) == queues(s.clients),
{
    lemma_told();
    assert forall|a: State, id: u32, device: u32|
        queues((#[trigger] a.selection_to_device(id, device)).clients) == queues(a.clients) by {
        lemma_selection(a, id);
    }
}

proof fn lemma_wl_data_device(s: State, r: Request)
    ensures
        queues(s.wl_data_device_handled(r).clients) == queues(s.clients),
{
    lemma_told();
    assert forall|a: State, selection: Option<ClientObjectId>|
        queues((#[trigger] a.selection_set(selection)).clients) == queues(a.clients) by {
        lemma_selection_set(a, selection);
    }
    assert forall|a: State| queues((#[trigger] a.pointer_taken()).clients) == queues(a.clients) by {
        lemma_pointer_taken(a);
    }
}

proof fn lemma_wl_data_source(s: State, r: Request)
    ensures
        queues(s.wl_data_source_handled(r).clients) == queues(s.clients),
{
    lemma_told();
    lemma_source_retired(s, r.key(), false);
    assert forall|a: State| queues((#[trigger] a.drag_actions_resolved()).clients) == queues(
        a.clients,
    ) by {
        lemma_drag_actions_resolved(a);
    }
}

proof fn lemma_wl_seat(s: State, r: Request)
    ensures
        queues(s.wl_seat_handled(r).clients) == queues(s.clients),
{
    lemma_clients();
}

proof fn lemma_wl_pointer(s: State, r: Request)
    ensures
        queues(s.wl_pointer_handled(r).clients) == queues(s.clients),
{
    lemma_clients();
}

proof fn lemma_wl_keyboard(s: State, r: Request)
    ensures
        queues(s.wl_keyboard_handled(r).clients) == queues(s.clients),
{
    lemma_clients();
}

proof fn lemma_wl_touch(s: State, r: Request)
    ensures
        queues(s.wl_touch_handled(r).clients) == queues(s.clients),
{
    lemma_clients();
}

proof fn lemma_wl_output(s: State, r: Request)
    ensures
        queues(s.wl_output_handled(r).clients) == queues(s.clients),
{
    lemma_clients();
}

proof fn lemma_wl_fixes(s: State, r: Request)
    ensures
        queues(s.wl_fixes_handled(r).clients) == queues(s.clients),
{
    lemma_clients();
}

proof fn lemma_xdg_wm_base(s: State, r: Request)
    ensures
        queues(s.xdg_wm_base_handled(r).clients) == queues(s.clients),
{
    lemma_clients();
}

proof fn lemma_toplevel_asked(s: State, r: Request)
    ensures
        queues(s.toplevel_asked(r).clients) == queues(s.clients),
{
    lemma_told();
    if r.word(0) is Some {
        let id = r.word(0).unwrap();
        let named = s.registered_as(r, id, ObjectType::XdgToplevel);
        let made = named.toplevel_created(r.client, id, r.object);
        assert(made.clients == named.clients);
        let told = made.capabilities_told(r.client, id).toplevel_configured((r.client, id), 0, 0);
        assert(queues(told.clients) == queues(s.clients));
        if told.surface_of_xdg(r.key()) is Some {
            lemma_focus_switched(told, told.surface_of_xdg(r.key()).unwrap());
        }
    }
}

proof fn lemma_popup_asked(s: State, r: Request)
    ensures
        queues(s.popup_asked(r).clients) == queues(s.clients),
{
    lemma_told();
    assert forall|a: State, child: ClientObjectId, parent: ClientObjectId, at: (i32, i32)| (
    #[trigger] a.surface_hung(child, parent, at)).clients == a.clients by {}
}

proof fn lemma_xdg_surface(s: State, r: Request)
    ensures
        queues(s.xdg_surface_handled(r).clients) == queues(s.clients),
{
    lemma_toplevel_asked(s, r);
    lemma_popup_asked(s, r);
    lemma_told();
}

proof fn lemma_xdg_system_bell(s: State, r: Request)
    ensures
        queues(s.xdg_system_bell_handled(r).clients) == queues(s.clients),
{
    lemma_clients();
}

proof fn lemma_xdg_toplevel(s: State, r: Request)
    ensures
        queues(s.xdg_toplevel_handled(r).clients) == queues(s.clients),
{
    lemma_told();
    assert forall|a: State| queues((#[trigger] a.pointer_taken()).clients) == queues(a.clients) by {
        lemma_pointer_taken(a);
    }
}

proof fn lemma_xdg_popup(s: State, r: Request)
    ensures
        queues(s.xdg_popup_handled(r).clients) == queues(s.clients),
{
    lemma_clients();
}

proof fn lemma_xdg_positioner(s: State, r: Request)
    ensures
        queues(s.xdg_positioner_handled(r).clients) == queues(s.clients),
{
    lemma_clients();
}

proof fn lemma_wl_buffer(s: State, r: Request)
    ensures
        queues(s.wl_buffer_handled(r).clients) == queues(s.clients),
{
    lemma_told();
    lemma_memory();
}

proof fn lemma_wp_presentation(s: State, r: Request)
    ensures
        queues(s.wp_presentation_handled(r).clients) == queues(s.clients),
{
    lemma_clients();
}

proof fn lemma_wp_presentation_feedback(s: State, r: Request)
    ensures
        queues(s.wp_presentation_feedback_handled(r).clients) == queues(s.clients),
{
    lemma_clients();
}

proof fn lemma_wp_viewporter(s: State, r: Request)
    ensures
        queues(s.wp_viewporter_handled(r).clients) == queues(s.clients),
{
    lemma_clients();
}

proof fn lemma_wp_viewport(s: State, r: Request)
    ensures
        queues(s.wp_viewport_handled(r).clients) == queues(s.clients),
{
    lemma_clients();
}

proof fn lemma_zwp_linux_dmabuf(s: State, r: Request)
    ensures
        queues(s.zwp_linux_dmabuf_handled(r).clients) == queues(s.clients),
{
    lemma_clients();
}

proof fn lemma_wl_shm(s: State, r: Request, fds: Seq<Fd>, mapped: bool)
    ensures
        queues(s.wl_shm_handled(r, fds, mapped).clients) == queues(s.clients),
{
    lemma_told();
    lemma_memory();
    state::lemma_closing_only_closes(fds);
    state::lemma_closing_only_closes(fds.skip(1));
}

proof fn lemma_wl_shm_pool(s: State, r: Request, mapped: bool)
    ensures
        queues(s.wl_shm_pool_handled(r, mapped).clients) == queues(s.clients),
{
    lemma_told();
    lemma_memory();
    lemma_fold(s, s.pool_buffers(r.client, r.object), buffers::damaging());
}

proof fn lemma_wl_data_offer(s: State, r: Request, fds: Seq<Fd>)
    ensures
        queues(s.wl_data_offer_handled(r, fds).clients) == queues(s.clients),
{
    lemma_told();
    state::lemma_closing_only_closes(fds);
    state::lemma_closing_only_closes(fds.skip(1));
}

proof fn lemma_zwp_linux_buffer_params(s: State, r: Request, fds: Seq<Fd>, size: i64, ready: bool)
    ensures
        queues(s.zwp_linux_buffer_params_handled(r, fds, size, ready).clients) == queues(s.clients),
{
    lemma_told();
    lemma_memory();
    lemma_clients();
    assert forall|a: State, id: u32, params: Option<u32>|
        queues((#[trigger] a.imports_cancelled(id, params)).clients) == queues(a.clients) by {
        lemma_fold(a, a.imports_of(id, params), zwp_linux_buffer_params::cancelling());
    }
    state::lemma_closing_only_closes(fds);
    state::lemma_closing_only_closes(fds.skip(1));
}

/// No request touches a queue once it has been handed to its interface.
proof fn lemma_dispatched(
    s: State,
    object_type: ObjectType,
    r: Request,
    fds: Seq<Fd>,
    outside: Outside,
)
    ensures
        queues(s.dispatched(object_type, r, fds, outside).clients) == queues(s.clients),
{
    match object_type {
        ObjectType::WlDisplay => lemma_wl_display(s, r),
        ObjectType::WlRegistry => lemma_wl_registry(s, r),
        ObjectType::WlCallback => lemma_wl_callback(s, r),
        ObjectType::WlCompositor => lemma_wl_compositor(s, r),
        ObjectType::WlSurface => lemma_wl_surface(s, r),
        ObjectType::WlRegion => lemma_wl_region(s, r),
        ObjectType::WlSubcompositor => lemma_wl_subcompositor(s, r),
        ObjectType::WlSubsurface => lemma_wl_subsurface(s, r),
        ObjectType::WlDataDeviceManager => lemma_wl_data_device_manager(s, r),
        ObjectType::WlDataDevice => lemma_wl_data_device(s, r),
        ObjectType::WlDataSource => lemma_wl_data_source(s, r),
        ObjectType::WlSeat => lemma_wl_seat(s, r),
        ObjectType::WlPointer => lemma_wl_pointer(s, r),
        ObjectType::WlKeyboard => lemma_wl_keyboard(s, r),
        ObjectType::WlTouch => lemma_wl_touch(s, r),
        ObjectType::WlOutput => lemma_wl_output(s, r),
        ObjectType::WlFixes => lemma_wl_fixes(s, r),
        ObjectType::XdgWmBase => lemma_xdg_wm_base(s, r),
        ObjectType::XdgSurface => lemma_xdg_surface(s, r),
        ObjectType::XdgSystemBell => lemma_xdg_system_bell(s, r),
        ObjectType::XdgToplevel => lemma_xdg_toplevel(s, r),
        ObjectType::XdgPopup => lemma_xdg_popup(s, r),
        ObjectType::XdgPositioner => lemma_xdg_positioner(s, r),
        ObjectType::WlBuffer => lemma_wl_buffer(s, r),
        ObjectType::WpPresentation => lemma_wp_presentation(s, r),
        ObjectType::WpPresentationFeedback => lemma_wp_presentation_feedback(s, r),
        ObjectType::WpViewporter => lemma_wp_viewporter(s, r),
        ObjectType::WpViewport => lemma_wp_viewport(s, r),
        ObjectType::ZwpLinuxDmabuf => lemma_zwp_linux_dmabuf(s, r),
        ObjectType::WlShm => lemma_wl_shm(s, r, fds, outside.mapped),
        ObjectType::WlShmPool => lemma_wl_shm_pool(s, r, outside.mapped),
        ObjectType::WlDataOffer => lemma_wl_data_offer(s, r, fds),
        ObjectType::ZwpLinuxBufferParams => lemma_zwp_linux_buffer_params(
            s,
            r,
            fds,
            outside.plane_size,
            outside.backend_ready,
        ),
    }
    reveal(State::dispatched);
}

/// A request takes the descriptors it comes with off its client's queue, oldest
/// first, and no others, whatever comes of it. No other client's queue is
/// touched.
pub proof fn law_requests_claim_their_descriptors_and_no_others(
    s: State,
    r: Request,
    outside: Outside,
    object_type: ObjectType,
    other: u32,
)
    requires
        s.type_of(r.client, r.object) == Some(object_type),
        s.clients[r.client].fd_queue.len() >= protocol::fd_count(object_type, r.op),
    ensures
        s.message_handled(r, outside).knows(r.client),
        s.message_handled(r, outside).clients[r.client].fd_queue
            == s.clients[r.client].fd_queue.skip(protocol::fd_count(object_type, r.op) as int),
        other != r.client && s.knows(other) ==> s.message_handled(r, outside).knows(other)
            && s.message_handled(r, outside).clients[other].fd_queue == s.clients[other].fd_queue,
{
    let client = s.clients[r.client];
    let count = protocol::fd_count(object_type, r.op) as int;
    let claimed = s.with_client(
        r.client,
        ClientView { fd_queue: client.fd_queue.skip(count), ..client },
    );
    lemma_dispatched(claimed, object_type, r, client.fd_queue.take(count), outside);
    let after = s.message_handled(r, outside);
    reveal(queues);
    assert(queues(after.clients).dom() == queues(claimed.clients).dom());
    assert(queues(claimed.clients).contains_key(r.client));
    assert(queues(after.clients)[r.client] == queues(claimed.clients)[r.client]);
    if other != r.client && s.knows(other) {
        assert(queues(claimed.clients).contains_key(other));
        assert(queues(after.clients)[other] == queues(claimed.clients)[other]);
    }
}

} // verus!

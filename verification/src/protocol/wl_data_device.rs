//! `wl_data_device` protocol handler.
//!
//! A data device is where a client is told two things: what the clipboard
//! holds, and what is being dragged over its surfaces. It is per-seat, and
//! since there is one seat here, per-client in practice - though a client may
//! hold more than one, and each is told separately.
//!
//! The clipboard follows keyboard focus. There is one selection at a time, and
//! the client that has focus is the one told about it.

use crate::client::ObjectType;
use crate::objects::{
    self, collect_objects, release_object, DataOffer, DataOfferView, DataSourceRole,
    DataSourceView, OfferKind,
};
use crate::protocol::wl_data_offer;
use crate::protocol::wl_data_source;
use crate::protocol::{malformed_request, unknown_request};
use crate::state::{self, CompositorState, State};
use crate::wire::{
    self, tell0, tell1, tell3, tell5, ArgReader, Request, WaylandProtocolMessageWithClientInfo,
};
use crate::workspace::ClientObjectId;
use vstd::prelude::*;

verus! {

// Request opcodes
pub const START_DRAG: u16 = 0;

pub const SET_SELECTION: u16 = 1;

pub const RELEASE: u16 = 2;

// Event opcodes
pub const DATA_OFFER: u16 = 0;

pub const ENTER: u16 = 1;

pub const LEAVE: u16 = 2;

pub const MOTION: u16 = 3;

pub const DROP: u16 = 4;

pub const SELECTION: u16 = 5;

/// `wl_data_device.error.role`: the surface offered as a drag icon already has
/// a role.
pub const ERROR_ROLE: u32 = 0;

/// `wl_data_device.error.used_source`: the source has been offered once
/// already.
pub const ERROR_USED_SOURCE: u32 = 1;

impl DataOfferView {
    /// An offer nothing has been said about yet.
    pub open spec fn fresh(client_id: u32, source: ClientObjectId, kind: OfferKind) -> Self {
        DataOfferView {
            client_id,
            source: Some(source),
            kind,
            accepted: None,
            actions: 0,
            preferred_action: 0,
            resolved_action: 0,
        }
    }
}

/// Tell an offer of one mime type.
pub open spec fn telling_mime(offer: ClientObjectId) -> spec_fn(State, Seq<char>) -> State {
    |s: State, mime_type: Seq<char>| s.mime_told(offer, mime_type)
}

/// Tell one device of a client what the clipboard holds.
pub open spec fn telling_selection(client_id: u32) -> spec_fn(State, u32) -> State {
    |s: State, device: u32| s.selection_to_device(client_id, device)
}

impl State {
    /// The data devices a client holds.
    pub open spec fn devices_of(self, client_id: u32) -> Seq<u32> {
        objects::objects_of(self.data_devices, client_id)
    }

    /// The mime types a source can produce.
    pub open spec fn mime_types_of(self, source: ClientObjectId) -> Seq<Seq<char>> {
        if self.data_sources.contains_key(source) {
            self.data_sources[source].mime_types
        } else {
            Seq::empty()
        }
    }

    /// What the next offer made to a client will be called.
    pub open spec fn next_offer(self, client_id: u32) -> Option<ClientObjectId> {
        if self.knows(client_id) && self.clients[client_id].can_allocate() {
            Some((client_id, self.clients[client_id].next_server_id))
        } else {
            None
        }
    }

    /// The state once an offer has been made on a device, and the client told
    /// what is behind it.
    pub open spec fn offer_made(
        self,
        client_id: u32,
        device_id: u32,
        source: ClientObjectId,
        kind: OfferKind,
    ) -> Self {
        match self.next_offer(client_id) {
            Some(offer) => {
                let c = self.clients[client_id];
                let s = self.with_client(
                    client_id,
                    c.allocated_with_version(ObjectType::WlDataOffer, c.version(device_id)),
                );
                let s = s.with_offer(offer, DataOfferView::fresh(client_id, source, kind));
                let s = s.sent(client_id, wire::told1(device_id, DATA_OFFER, offer.1));
                state::each(s, self.mime_types_of(source), telling_mime(offer))
            },
            None => self,
        }
    }

    /// The state once a device has been told what the clipboard holds.
    pub open spec fn selection_to_device(self, client_id: u32, device_id: u32) -> Self {
        match self.selection {
            Some(source) => match self.next_offer(client_id) {
                Some(offer) => self.offer_made(
                    client_id,
                    device_id,
                    source,
                    OfferKind::Selection,
                ).sent(client_id, wire::told1(device_id, SELECTION, offer.1)),
                None => self,
            },
            None => self.sent(client_id, wire::told1(device_id, SELECTION, 0)),
        }
    }

    /// The state once a client has been told what the clipboard holds.
    pub open spec fn selection_to_client(self, client_id: u32) -> Self {
        state::each(self, self.devices_of(client_id), telling_selection(client_id))
    }

    /// The state once a device has been told of a drag over a surface.
    pub open spec fn device_entered(
        self,
        client_id: u32,
        device_id: u32,
        surface_id: u32,
        x: i32,
        y: i32,
        offer_id: Option<u32>,
    ) -> Self {
        self.ticked().sent(
            client_id,
            wire::told5(
                device_id,
                ENTER,
                self.next_serial,
                surface_id,
                wire::signed_word(x),
                wire::signed_word(y),
                match offer_id {
                    Some(id) => id,
                    None => 0,
                },
            ),
        )
    }

    /// The state once a device has been told the drag is elsewhere.
    pub open spec fn device_left(self, client_id: u32, device_id: u32) -> Self {
        self.sent(client_id, wire::told0(device_id, LEAVE))
    }

    /// The state once a device has been told where the drag is.
    pub open spec fn device_moved(
        self,
        client_id: u32,
        device_id: u32,
        time_ms: u32,
        x: i32,
        y: i32,
    ) -> Self {
        self.sent(
            client_id,
            wire::told3(device_id, MOTION, time_ms, wire::signed_word(x), wire::signed_word(y)),
        )
    }

    /// The state once a device has been told of a drop.
    pub open spec fn device_dropped(self, client_id: u32, device_id: u32) -> Self {
        self.sent(client_id, wire::told0(device_id, DROP))
    }

    /// The state once a drag's target takes nothing.
    pub open spec fn accept_cleared(self, offer: ClientObjectId) -> Self {
        if self.data_offers.contains_key(offer) {
            let o = self.data_offers[offer];
            let s = self.with_offer(offer, DataOfferView { accepted: None, ..o });
            match o.source {
                Some(source) => s.source_targeted(source, None),
                None => s,
            }
        } else {
            self
        }
    }

    /// A source can be offered: it is there and has not been.
    pub open spec fn claimable(self, source: ClientObjectId) -> bool {
        self.data_sources.contains_key(source) && self.data_sources[source].role
            == DataSourceRole::Unused
    }

    /// The state once a source has been taken for a use, or its client told it
    /// has had one.
    pub open spec fn source_claimed(
        self,
        r: Request,
        source: ClientObjectId,
        role: DataSourceRole,
    ) -> Self {
        if self.claimable(source) {
            State {
                data_sources: self.data_sources.insert(
                    source,
                    DataSourceView { role, ..self.data_sources[source] },
                ),
                ..self
            }
        } else if self.data_sources.contains_key(source) {
            self.errored(
                r.client,
                r.object,
                ERROR_USED_SOURCE,
                "wl_data_device: this source has already been offered"@,
            )
        } else {
            self
        }
    }

    /// A surface is there, and has no role yet.
    pub open spec fn roleless(self, surface: ClientObjectId) -> bool {
        &&& self.surfaces.contains_key(surface)
        &&& !self.cursor_role_surfaces.contains(surface)
        &&& !self.dnd_icon_surfaces.contains(surface)
        &&& self.surfaces[surface].parent is None
        &&& !self.is_xdg(surface)
    }

    /// The state once a surface is a drag icon, or its client told it cannot be.
    pub open spec fn icon_claimed(self, r: Request, icon: ClientObjectId) -> Self {
        if self.roleless(icon) {
            State { dnd_icon_surfaces: self.dnd_icon_surfaces.insert(icon), ..self }
        } else {
            self.errored(
                r.client,
                r.object,
                ERROR_ROLE,
                "wl_data_device.start_drag: the icon surface already has a role"@,
            )
        }
    }

    /// A client may start a drag off the press with this serial.
    pub open spec fn may_drag(self, client_id: u32, origin: ClientObjectId, serial: u32) -> bool {
        &&& self.pointer_grab is None
        &&& self.drag is None
        &&& self.pressed_buttons != Set::<u32>::empty()
        &&& self.last_button_serial.contains_key(client_id)
        &&& self.last_button_serial[client_id] == serial
        &&& self.surfaces.contains_key(origin)
    }

    /// The state once a client has asked to start a drag.
    pub open spec fn drag_asked(self, r: Request) -> Self {
        match (r.word(0), r.word(4), r.word(8), r.word(12)) {
            (Some(source_id), Some(origin_id), Some(icon_id), Some(serial)) => {
                let origin = (r.client, origin_id);
                let icon = (r.client, icon_id);
                let source = (r.client, source_id);
                if !self.may_drag(r.client, origin, serial) {
                    self
                } else if icon_id != 0 && !self.roleless(icon) {
                    self.icon_claimed(r, icon)
                } else {
                    let s = if icon_id == 0 {
                        self
                    } else {
                        self.icon_claimed(r, icon)
                    };
                    if source_id != 0 && !s.claimable(source) {
                        s.source_claimed(r, source, DataSourceRole::Drag)
                    } else {
                        let t = if source_id == 0 {
                            s
                        } else {
                            s.source_claimed(r, source, DataSourceRole::Drag)
                        };
                        t.drag_started(
                            if source_id == 0 {
                                None
                            } else {
                                Some(source)
                            },
                            r.client,
                            origin,
                            if icon_id == 0 {
                                None
                            } else {
                                Some(icon)
                            },
                        )
                    }
                }
            },
            _ => self.malformed(r, "wl_data_device"@),
        }
    }

    /// The state once a client has asked for the clipboard to be its own.
    pub open spec fn selection_asked(self, r: Request) -> Self {
        match (r.word(0), r.word(4)) {
            (Some(source_id), Some(serial)) => {
                let source = (r.client, source_id);
                if !self.is_recent(r.client, serial) {
                    self
                } else if source_id == 0 {
                    self.selection_set(None)
                } else if self.claimable(source) {
                    self.source_claimed(r, source, DataSourceRole::Selection).selection_set(
                        Some(source),
                    )
                } else {
                    self.source_claimed(r, source, DataSourceRole::Selection)
                }
            },
            _ => self.malformed(r, "wl_data_device"@),
        }
    }

    /// The state once a `wl_data_device` request has been handled.
    pub open spec fn wl_data_device_handled(self, r: Request) -> Self {
        if r.op == START_DRAG {
            self.drag_asked(r)
        } else if r.op == SET_SELECTION {
            self.selection_asked(r)
        } else if r.op == RELEASE {
            State {
                data_devices: self.data_devices.filter(objects::not_bound(r.client, r.object)),
                ..self
            }.unregistered(r.client, r.object)
        } else {
            self.rejected(r, "wl_data_device"@)
        }
    }
}

pub fn handle(state: &mut CompositorState, msg: &WaylandProtocolMessageWithClientInfo)
    requires
        old(state).wf(),
    ensures
        final(state).wf(),
        final(state)@ == old(state)@.wl_data_device_handled(msg@),
{
    proof {
        reveal_strlit("wl_data_device");
    }
    let device_id: u32 = msg.message.object_id;
    match msg.message.op_code {
        START_DRAG => handle_start_drag(state, msg),
        SET_SELECTION => handle_set_selection(state, msg),
        RELEASE => {
            release_object(&mut state.data_devices, msg.client_id, device_id);
            state.unregister(msg.client_id, device_id);
        },
        _ => unknown_request(state, msg, "wl_data_device"),
    }
}

/// Take a source for one use, refusing a second.
///
/// A source is single-use: offering the same one as a selection and then as a
/// drag would leave two unrelated transfers sharing one mime list and one
/// `cancelled`. Returns false if the client has been disconnected for it, or if
/// the id does not name a source of its own.
fn claim_source(
    state: &mut CompositorState,
    msg: &WaylandProtocolMessageWithClientInfo,
    source_id: u32,
    role: DataSourceRole,
) -> (r: bool)
    requires
        old(state).wf(),
    ensures
        final(state).wf(),
        final(state)@ == old(state)@.source_claimed(msg@, (msg.client_id, source_id), role),
        r == old(state)@.claimable((msg.client_id, source_id)),
{
    proof {
        reveal_strlit("wl_data_device: this source has already been offered");
    }
    match state.data_sources.get_mut((msg.client_id, source_id)) {
        Some(source) => {
            if source.role == DataSourceRole::Unused {
                source.role = role;
                return true;
            }
        },
        None => {
            return false;
        },
    }
    assert(state@.data_sources =~= old(state)@.data_sources);
    state.fail(
        msg.client_id,
        msg.message.object_id,
        ERROR_USED_SOURCE,
        "wl_data_device: this source has already been offered",
    );
    false
}

/// Give a surface the drag-icon role, or refuse it because it has another.
///
/// Permanent, like the cursor role: a surface that has been a drag icon can
/// never become anything else, which is what makes the check on the other side
/// - in `wl_pointer.set_cursor` and `wl_subcompositor.get_subsurface` - worth
/// making at all.
fn claim_icon_role(
    state: &mut CompositorState,
    msg: &WaylandProtocolMessageWithClientInfo,
    icon: ClientObjectId,
) -> (r: bool)
    requires
        old(state).wf(),
    ensures
        final(state).wf(),
        final(state)@ == old(state)@.icon_claimed(msg@, icon),
        r == old(state)@.roleless(icon),
{
    proof {
        reveal_strlit("wl_data_device.start_drag: the icon surface already has a role");
    }
    let parentless = match state.surfaces.get(icon) {
        Some(surface) => surface.parent.is_none(),
        None => false,
    };
    if parentless && !state.cursor_role_surfaces.contains(icon) && !state.dnd_icon_surfaces.contains(
        icon,
    ) && !state.is_xdg(icon) {
        state.dnd_icon_surfaces.insert(icon);
        return true;
    }
    state.fail(
        msg.client_id,
        msg.message.object_id,
        ERROR_ROLE,
        "wl_data_device.start_drag: the icon surface already has a role",
    );
    false
}

fn handle_start_drag(state: &mut CompositorState, msg: &WaylandProtocolMessageWithClientInfo)
    requires
        old(state).wf(),
    ensures
        final(state).wf(),
        final(state)@ == old(state)@.drag_asked(msg@),
{
    proof {
        reveal_strlit("wl_data_device");
    }
    let mut args = ArgReader::new(msg.message.args.as_slice());
    // start_drag args: object source (nullable), object origin, object icon
    // (nullable), uint serial
    let (a, b, c, d) = (args.u32(), args.u32(), args.u32(), args.u32());
    let (source_id, origin_id, icon_id, serial): (u32, u32, u32, u32) = match (a, b, c, d) {
        (Some(a), Some(b), Some(c), Some(d)) => (a, b, c, d),
        _ => {
            malformed_request(state, msg, "wl_data_device");
            return ;
        },
    };
    let client_id: u32 = msg.client_id;

    // Refused quietly, all of it. The ordinary cause of every one of these is
    // the user having let go before the client got round to asking, and there
    // is no way to say no that does not end the connection.
    if state.pointer_grab.is_some() || state.drag.is_some() {
        return ;
    }
    if state.pressed_buttons.is_empty() {
        return ;
    }
    let pressed = match state.last_button_serial.get(client_id) {
        Some(pressed) => *pressed == serial,
        None => false,
    };
    if !pressed {
        return ;
    }
    let origin = (client_id, origin_id);
    if !state.surfaces.contains_key(origin) {
        return ;
    }
    // Past here the two failures the protocol names as errors, both fatal.
    let icon = if icon_id == 0 {
        None
    } else {
        let icon = (client_id, icon_id);
        if !claim_icon_role(state, msg, icon) {
            return ;
        }
        Some(icon)
    };
    let source = if source_id == 0 {
        None
    } else {
        if !claim_source(state, msg, source_id, DataSourceRole::Drag) {
            return ;
        }
        Some((client_id, source_id))
    };
    state.start_drag(source, client_id, origin, icon);
}

fn handle_set_selection(state: &mut CompositorState, msg: &WaylandProtocolMessageWithClientInfo)
    requires
        old(state).wf(),
    ensures
        final(state).wf(),
        final(state)@ == old(state)@.selection_asked(msg@),
{
    proof {
        reveal_strlit("wl_data_device");
    }
    let mut args = ArgReader::new(msg.message.args.as_slice());
    // set_selection args: object source (nullable), uint serial
    let (a, b) = (args.u32(), args.u32());
    let (source_id, serial): (u32, u32) = match (a, b) {
        (Some(a), Some(b)) => (a, b),
        _ => {
            malformed_request(state, msg, "wl_data_device");
            return ;
        },
    };
    // A keyboard serial, usually - this is Ctrl+C far more often than it is a
    // click - so it is checked against the short history of everything the
    // client has been sent rather than against the button currently held.
    if !state.is_recent_input_serial(msg.client_id, serial) {
        return ;
    }
    let new_selection = if source_id == 0 {
        None
    } else {
        if !claim_source(state, msg, source_id, DataSourceRole::Selection) {
            return ;
        }
        Some((msg.client_id, source_id))
    };
    state.set_selection(new_selection);
}

/// The mime types a source can produce.
fn mime_types(state: &CompositorState, source: ClientObjectId) -> (r: Vec<String>)
    requires
        state.wf(),
    ensures
        r@.map_values(|m: String| m@) == state@.mime_types_of(source),
        forall|i: int| 0 <= i < r@.len() ==> wire::writable((#[trigger] r@[i])@),
{
    let mut r: Vec<String> = Vec::new();
    if let Some(data) = state.data_sources.get(source) {
        let mut i: usize = 0;
        while i < data.mime_types.len()
            invariant
                i <= data.mime_types@.len(),
                state.wf(),
                state@.data_sources.contains_key(source),
                data@ == state@.data_sources[source],
                r@.len() == i,
                forall|j: int| 0 <= j < i ==> (#[trigger] r@[j])@ == data@.mime_types[j],
                forall|j: int| 0 <= j < i ==> wire::writable((#[trigger] r@[j])@),
            decreases data.mime_types@.len() - i,
        {
            assert(data@.mime_types[i as int] == data.mime_types@[i as int]@);
            assert(wire::writable(state@.data_sources[source].mime_types[i as int]));
            r.push(data.mime_types[i].clone());
            i = i + 1;
        }
    }
    assert(r@.map_values(|m: String| m@) =~= state@.mime_types_of(source));
    r
}

/// Create an offer on one device and tell the client what it contains.
///
/// The order is forced by the protocol: the client has to have been told the
/// object exists, and what mime types are behind it, before it is told what the
/// object is *for* - the `selection` or `enter` that follows.
///
/// Returns the offer's key, or `None` if the client's server id space is spent.
pub fn create_offer(
    state: &mut CompositorState,
    client_id: u32,
    device_id: u32,
    source: ClientObjectId,
    kind: OfferKind,
) -> (r: Option<ClientObjectId>)
    requires
        old(state).wf(),
    ensures
        final(state).wf(),
        final(state)@ == old(state)@.offer_made(client_id, device_id, source, kind),
        r == old(state)@.next_offer(client_id),
{
    let mimes = mime_types(state, source);
    let ghost texts = mimes@.map_values(|m: String| m@);
    // The device's version, so the offer's own events are gated on what the
    // client actually bound rather than on the version 1 default.
    let allocated = match state.clients.get(client_id) {
        Some(client) => {
            let version: u32 = client.version(device_id);
            client.allocate_id_with_version(ObjectType::WlDataOffer, version)
        },
        None => None,
    };
    let offer_id: u32 = match allocated {
        Some(id) => id,
        None => {
            assert(state@.clients =~= old(state)@.clients);
            return None;
        },
    };
    let offer = (client_id, offer_id);
    state.data_offers.insert(
        offer,
        DataOffer {
            client_id,
            source: Some(source),
            kind,
            accepted: None,
            actions: 0,
            preferred_action: 0,
            resolved_action: 0,
        },
    );
    send_data_offer(state, client_id, device_id, offer_id);
    let ghost start = state@;
    let mut i: usize = 0;
    proof {
        state::lemma_each_ends(start, texts, telling_mime(offer));
    }
    while i < mimes.len()
        invariant
            state.wf(),
            i <= mimes@.len(),
            texts == mimes@.map_values(|m: String| m@),
            forall|j: int| 0 <= j < mimes@.len() ==> wire::writable((#[trigger] mimes@[j])@),
            state@ == state::each(start, texts.take(i as int), telling_mime(offer)),
        decreases mimes@.len() - i,
    {
        proof {
            state::lemma_each_step(start, texts, telling_mime(offer), i as int);
            assert(texts[i as int] == mimes@[i as int]@);
        }
        wl_data_offer::send_offer(state, offer, mimes[i].as_str());
        i = i + 1;
    }
    proof {
        state::lemma_each_ends(start, texts, telling_mime(offer));
    }
    Some(offer)
}

/// Hand a client the current clipboard, on every one of its data devices.
///
/// `selection` is a per-device event, so a client holding two devices is told
/// twice and gets an offer for each - an offer belongs to the device it
/// arrived on.
pub fn send_selection_to_client(state: &mut CompositorState, client_id: u32)
    requires
        old(state).wf(),
    ensures
        final(state).wf(),
        final(state)@ == old(state)@.selection_to_client(client_id),
{
    let devices = devices_of(state, client_id);
    let ghost start = state@;
    let mut i: usize = 0;
    proof {
        state::lemma_each_ends(start, devices@, telling_selection(client_id));
    }
    while i < devices.len()
        invariant
            state.wf(),
            i <= devices@.len(),
            state@ == state::each(start, devices@.take(i as int), telling_selection(client_id)),
        decreases devices@.len() - i,
    {
        proof {
            state::lemma_each_step(start, devices@, telling_selection(client_id), i as int);
        }
        send_selection_to_device(state, client_id, devices[i]);
        i = i + 1;
    }
    proof {
        state::lemma_each_ends(start, devices@, telling_selection(client_id));
    }
}

/// Hand one device the current clipboard, or tell it there is none.
///
/// A client owning the selection is offered it back like any other. It has to
/// be: copying and pasting within one application goes through this path, and
/// the descriptor relay handles a client talking to itself without noticing.
pub fn send_selection_to_device(state: &mut CompositorState, client_id: u32, device_id: u32)
    requires
        old(state).wf(),
    ensures
        final(state).wf(),
        final(state)@ == old(state)@.selection_to_device(client_id, device_id),
{
    let source = match state.selection {
        Some(source) => source,
        None => {
            send_selection(state, client_id, device_id, None);
            return ;
        },
    };
    if let Some(offer) = create_offer(state, client_id, device_id, source, OfferKind::Selection) {
        send_selection(state, client_id, device_id, Some(offer.1));
    }
}

/// Send `wl_data_device.data_offer`, introducing an offer the compositor named.
pub fn send_data_offer(state: &mut CompositorState, client_id: u32, device_id: u32, offer_id: u32)
    requires
        old(state).wf(),
    ensures
        final(state).wf(),
        final(state)@ == old(state)@.sent(
            client_id,
            wire::told1(device_id, DATA_OFFER, offer_id),
        ),
{
    state.send(client_id, tell1(device_id, DATA_OFFER, offer_id));
}

/// Send `wl_data_device.selection`, naming the offer that is now the clipboard.
///
/// A null offer means there is nothing on the clipboard.
pub fn send_selection(
    state: &mut CompositorState,
    client_id: u32,
    device_id: u32,
    offer_id: Option<u32>,
)
    requires
        old(state).wf(),
    ensures
        final(state).wf(),
        final(state)@ == old(state)@.sent(
            client_id,
            wire::told1(
                device_id,
                SELECTION,
                match offer_id {
                    Some(id) => id,
                    None => 0,
                },
            ),
        ),
{
    let offer: u32 = match offer_id {
        Some(id) => id,
        None => 0,
    };
    state.send(client_id, tell1(device_id, SELECTION, offer));
}

/// Send `wl_data_device.enter`: a drag has arrived over one of this client's
/// surfaces.
///
/// A null offer is a drag with no source - one client dragging within itself,
/// which has nothing to hand anyone.
pub fn send_enter(
    state: &mut CompositorState,
    client_id: u32,
    device_id: u32,
    surface_id: u32,
    x: i32,
    y: i32,
    offer_id: Option<u32>,
)
    requires
        old(state).wf(),
    ensures
        final(state).wf(),
        final(state)@ == old(state)@.device_entered(
            client_id,
            device_id,
            surface_id,
            x,
            y,
            offer_id,
        ),
{
    let serial: u32 = state.next_serial();
    let offer: u32 = match offer_id {
        Some(id) => id,
        None => 0,
    };
    state.send(
        client_id,
        tell5(device_id, ENTER, serial, surface_id, x as u32, y as u32, offer),
    );
}

/// Send `wl_data_device.leave`: the drag has gone elsewhere.
pub fn send_leave(state: &mut CompositorState, client_id: u32, device_id: u32)
    requires
        old(state).wf(),
    ensures
        final(state).wf(),
        final(state)@ == old(state)@.device_left(client_id, device_id),
{
    state.send(client_id, tell0(device_id, LEAVE));
}

/// Send `wl_data_device.motion`: the drag has moved within this surface.
pub fn send_motion(
    state: &mut CompositorState,
    client_id: u32,
    device_id: u32,
    time_ms: u32,
    x: i32,
    y: i32,
)
    requires
        old(state).wf(),
    ensures
        final(state).wf(),
        final(state)@ == old(state)@.device_moved(client_id, device_id, time_ms, x, y),
{
    state.send(client_id, tell3(device_id, MOTION, time_ms, x as u32, y as u32));
}

/// Send `wl_data_device.drop`: the user let go here.
pub fn send_drop(state: &mut CompositorState, client_id: u32, device_id: u32)
    requires
        old(state).wf(),
    ensures
        final(state).wf(),
        final(state)@ == old(state)@.device_dropped(client_id, device_id),
{
    state.send(client_id, tell0(device_id, DROP));
}

/// Every data device belonging to a client.
pub fn devices_of(state: &CompositorState, client_id: u32) -> (r: Vec<u32>)
    ensures
        r@ == state@.devices_of(client_id),
{
    collect_objects(&state.data_devices, client_id)
}

/// Tell a source that its drag target will take nothing, and forget what it
/// had accepted. Used when a drag leaves a surface.
pub fn clear_accepted(state: &mut CompositorState, offer: ClientObjectId)
    requires
        old(state).wf(),
    ensures
        final(state).wf(),
        final(state)@ == old(state)@.accept_cleared(offer),
{
    let source = match state.data_offers.get_mut(offer) {
        Some(o) => {
            o.accepted = None;
            o.source
        },
        None => {
            return ;
        },
    };
    if let Some(source) = source {
        wl_data_source::send_target(state, source, None);
    }
}

} // verus!

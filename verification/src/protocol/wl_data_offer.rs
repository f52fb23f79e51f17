//! `wl_data_offer` protocol handler.
//!
//! An offer is the compositor's name for a `wl_data_source` belonging to some
//! other client, handed to a client that may read from it - the clipboard, or
//! the content of a drag passing over one of its surfaces.
//!
//! The id is the compositor's rather than the client's, which has a consequence
//! worth keeping in mind throughout this file: `wl_display.delete_id` is never
//! sent for a server id, so nothing but the client's own `destroy` takes the id
//! out of its object map. When the compositor stops caring about an offer - the
//! clipboard has been replaced, the drag has left the window - it forgets the
//! offer's *contents* and keeps its *identity*. Every request here therefore
//! has to survive its backing offer having gone.

use crate::objects::{self, DataOfferView, DragView, OfferKind};
use crate::protocol::wl_data_device_manager::DND_ACTION_ALL;
use crate::protocol::wl_data_source::{self, ACTIONS_SINCE};
use crate::protocol::{malformed_request, unknown_request};
use crate::state::{CompositorState, State};
use crate::wire::{
    self, build_message, tell1, ArgReader, ArgWriter, Fd, Request,
    WaylandProtocolMessageWithClientInfo,
};
use crate::workspace::{self, retain_other, ClientObjectId};
use vstd::prelude::*;

verus! {

// Request opcodes
pub const ACCEPT: u16 = 0;

pub const RECEIVE: u16 = 1;

pub const DESTROY: u16 = 2;

pub const FINISH: u16 = 3;

pub const SET_ACTIONS: u16 = 4;

// Event opcodes
pub const OFFER: u16 = 0;

pub const SOURCE_ACTIONS: u16 = 1;

pub const ACTION: u16 = 2;

/// `wl_data_offer.error.invalid_finish`: finished before the drop.
pub const ERROR_INVALID_FINISH: u32 = 0;

/// `wl_data_offer.error.invalid_action_mask`: a mask with undefined bits.
pub const ERROR_INVALID_ACTION_MASK: u32 = 1;

/// `wl_data_offer.error.invalid_action`: a preference outside the mask.
pub const ERROR_INVALID_ACTION: u32 = 2;

/// A preference is none, or one of the actions the protocol defines that is
/// among the accepted ones.
pub open spec fn preference_fits(actions: u32, preferred: u32) -> bool {
    preferred == 0 || ((preferred == 1 || preferred == 2 || preferred == 4) && preferred & actions
        != 0)
}

impl State {
    /// The state once an offer has been told of a mime type behind it.
    pub open spec fn mime_told(self, offer: ClientObjectId, mime_type: Seq<char>) -> Self {
        self.sent(
            offer.0,
            wire::event(offer.1, OFFER, Seq::empty() + wire::string_bytes(mime_type)),
        )
    }

    /// The state once an offer has been told what its source allows.
    pub open spec fn source_actions_told(self, offer: ClientObjectId, actions: u32) -> Self {
        if self.speaks(offer.0, offer.1, ACTIONS_SINCE) {
            self.sent(offer.0, wire::told1(offer.1, SOURCE_ACTIONS, actions))
        } else {
            self
        }
    }

    /// The state once an offer has been told what was settled on.
    pub open spec fn offer_action_told(self, offer: ClientObjectId, action: u32) -> Self {
        if self.speaks(offer.0, offer.1, ACTIONS_SINCE) {
            self.sent(offer.0, wire::told1(offer.1, ACTION, action))
        } else {
            self
        }
    }

    /// The state with another offer in place of one.
    pub open spec fn with_offer(self, key: ClientObjectId, offer: DataOfferView) -> Self {
        State { data_offers: self.data_offers.insert(key, offer), ..self }
    }

    /// The state once a client has said what it will take of an offer.
    pub open spec fn offer_accepted(self, r: Request) -> Self {
        match (r.word(0), wire::string_or_null_at(r.args, 4)) {
            (Some(_), Some((mime_type, _))) => if self.data_offers.contains_key(r.key()) {
                let offer = self.data_offers[r.key()];
                let s = self.with_offer(r.key(), DataOfferView { accepted: mime_type, ..offer });
                let s = match offer.source {
                    Some(source) => s.source_targeted(source, mime_type),
                    None => s,
                };
                s.offer_resolved(r.key())
            } else {
                self
            },
            _ => self.malformed(r, "wl_data_offer"@),
        }
    }

    /// The source behind an offer, if it can produce a mime type.
    pub open spec fn source_producing(self, offer: ClientObjectId, mime_type: Seq<char>) -> Option<
        ClientObjectId,
    > {
        if self.data_offers.contains_key(offer) {
            match self.data_offers[offer].source {
                Some(source) if self.data_sources.contains_key(source)
                    && self.data_sources[source].mime_types.contains(mime_type) => Some(source),
                _ => None,
            }
        } else {
            None
        }
    }

    /// The state once a client has asked for an offer's data: the pipe is
    /// passed on to a source that can fill it, and closed otherwise.
    pub open spec fn offer_received(self, r: Request, fds: Seq<Fd>) -> Self {
        match wire::string_at(r.args, 0) {
            Some((mime_type, _)) => match self.source_producing(r.key(), mime_type) {
                Some(source) if fds.len() > 0 => self.source_asked(
                    source,
                    mime_type,
                    fds[0],
                ).all_closed(fds.skip(1)),
                _ => self.all_closed(fds),
            },
            None => self.malformed(r, "wl_data_offer"@).all_closed(fds),
        }
    }

    /// The state once a client is done with an offer.
    pub open spec fn offer_destroyed(self, r: Request) -> Self {
        let s = State { data_offers: self.data_offers.remove(r.key()), ..self };
        let s = match s.drag {
            Some(d) => State {
                drag: Some(
                    DragView {
                        focus_offers: workspace::stack_without(d.focus_offers, r.key()),
                        ..d
                    },
                ),
                ..s
            },
            None => s,
        };
        s.unregistered(r.client, r.object)
    }

    /// The state once a client has read what was dropped on it.
    pub open spec fn offer_finished(self, r: Request) -> Self {
        if self.data_offers.contains_key(r.key()) && self.data_offers[r.key()].kind
            == OfferKind::Dropped {
            let offer = self.data_offers[r.key()];
            let s = self.with_offer(r.key(), DataOfferView { source: None, ..offer });
            match offer.source {
                Some(source) => s.source_finished(source),
                None => s,
            }
        } else {
            self.errored(
                r.client,
                r.object,
                ERROR_INVALID_FINISH,
                "wl_data_offer.finish: nothing has been dropped on this offer"@,
            )
        }
    }

    /// The state once a client has said what it would do with an offer.
    pub open spec fn offer_actions_set(self, r: Request) -> Self {
        match (r.word(0), r.word(4)) {
            (Some(actions), Some(preferred)) => if actions & !DND_ACTION_ALL != 0 {
                self.errored(
                    r.client,
                    r.object,
                    ERROR_INVALID_ACTION_MASK,
                    "wl_data_offer.set_actions: mask has actions the protocol does not define"@,
                )
            } else if !preference_fits(actions, preferred) {
                self.errored(
                    r.client,
                    r.object,
                    ERROR_INVALID_ACTION,
                    "wl_data_offer.set_actions: preferred action is not one of the accepted ones"@,
                )
            } else {
                let s = if self.data_offers.contains_key(r.key()) {
                    self.with_offer(
                        r.key(),
                        DataOfferView {
                            actions,
                            preferred_action: preferred,
                            ..self.data_offers[r.key()]
                        },
                    )
                } else {
                    self
                };
                s.offer_resolved(r.key())
            },
            _ => self.malformed(r, "wl_data_offer"@),
        }
    }

    /// The state once a `wl_data_offer` request has been handled.
    pub open spec fn wl_data_offer_handled(self, r: Request, fds: Seq<Fd>) -> Self {
        if r.op == RECEIVE {
            self.offer_received(r, fds)
        } else {
            let s = if r.op == ACCEPT {
                self.offer_accepted(r)
            } else if r.op == DESTROY {
                self.offer_destroyed(r)
            } else if r.op == FINISH {
                self.offer_finished(r)
            } else if r.op == SET_ACTIONS {
                self.offer_actions_set(r)
            } else {
                self.rejected(r, "wl_data_offer"@)
            };
            s.all_closed(fds)
        }
    }
}

/// `fds` carries the pipe passed with `receive`. Closing it gives the
/// requesting client an immediate end of file rather than a hang - the right
/// answer for a stale offer, a source that has gone, and a mime type that was
/// never offered.
pub fn handle(
    state: &mut CompositorState,
    msg: &WaylandProtocolMessageWithClientInfo,
    fds: Vec<Fd>,
)
    requires
        old(state).wf(),
        msg@.fits(),
    ensures
        final(state).wf(),
        final(state)@ == old(state)@.wl_data_offer_handled(msg@, fds@),
{
    proof {
        reveal_strlit("wl_data_offer");
    }
    match msg.message.op_code {
        RECEIVE => {
            handle_receive(state, msg, fds);
            return ;
        },
        ACCEPT => handle_accept(state, msg),
        DESTROY => handle_destroy(state, msg),
        FINISH => handle_finish(state, msg),
        SET_ACTIONS => handle_set_actions(state, msg),
        _ => unknown_request(state, msg, "wl_data_offer"),
    }
    state.close_all(&fds);
}

fn handle_accept(state: &mut CompositorState, msg: &WaylandProtocolMessageWithClientInfo)
    requires
        old(state).wf(),
        msg@.fits(),
    ensures
        final(state).wf(),
        final(state)@ == old(state)@.offer_accepted(msg@),
{
    proof {
        reveal_strlit("wl_data_offer");
    }
    let mut args = ArgReader::new(msg.message.args.as_slice());
    let serial = args.u32();
    // The serial is meant to be the one from `wl_data_device.enter`, and is not
    // checked. There is no non-fatal way to refuse it, the worst a stale one
    // costs is a briefly wrong drag cursor, and disconnecting a client over
    // that is out of all proportion.
    let mime_type = if serial.is_some() { args.string_or_null() } else { None };
    let mime_type: Option<String> = match mime_type {
        Some(mime_type) => mime_type,
        None => {
            malformed_request(state, msg, "wl_data_offer");
            return ;
        },
    };
    let key = (msg.client_id, msg.message.object_id);
    let told: Option<String> = match &mime_type {
        Some(m) => Some(m.clone()),
        None => None,
    };
    assert(objects::text_view(told) == objects::text_view(mime_type));
    let source = match state.data_offers.get_mut(key) {
        Some(offer) => {
            offer.accepted = mime_type;
            offer.source
        },
        None => {
            return ;
        },
    };
    if let Some(source) = source {
        let target: Option<&str> = match &told {
            Some(m) => Some(m.as_str()),
            None => None,
        };
        wl_data_source::send_target(state, source, target);
    }
    state.resolve_offer_action(key);
}

/// Relay the receiving client's pipe to the source client.
///
/// The compositor moves one descriptor and reads nothing. Every refusal here
/// closes the descriptor instead of sending an error: a client pasting from a
/// clipboard whose owner has exited, or asking for a mime type that was never
/// offered, has done nothing that warrants losing its connection - it gets an
/// empty paste, which is what actually happened.
fn handle_receive(
    state: &mut CompositorState,
    msg: &WaylandProtocolMessageWithClientInfo,
    fds: Vec<Fd>,
)
    requires
        old(state).wf(),
        msg@.fits(),
    ensures
        final(state).wf(),
        final(state)@ == old(state)@.offer_received(msg@, fds@),
{
    proof {
        reveal_strlit("wl_data_offer");
    }
    let mut args = ArgReader::new(msg.message.args.as_slice());
    let mime_type = match args.string() {
        Some(mime_type) => mime_type,
        None => {
            malformed_request(state, msg, "wl_data_offer");
            state.close_all(&fds);
            return ;
        },
    };
    let key = (msg.client_id, msg.message.object_id);
    let source = match state.data_offers.get(key) {
        Some(offer) => offer.source,
        None => None,
    };
    let source = match source {
        Some(source) => match state.data_sources.get(source) {
            Some(data) => if wl_data_source::produces(data, &mime_type) {
                Some(source)
            } else {
                None
            },
            None => None,
        },
        None => None,
    };
    match source {
        Some(source) if fds.len() > 0 => {
            let mut rest = fds;
            let fd = rest.remove(0);
            assert(rest@ =~= fds@.skip(1));
            wl_data_source::send_send(state, source, mime_type.as_str(), fd);
            state.close_all(&rest);
        },
        _ => state.close_all(&fds),
    }
}

fn handle_destroy(state: &mut CompositorState, msg: &WaylandProtocolMessageWithClientInfo)
    requires
        old(state).wf(),
    ensures
        final(state).wf(),
        final(state)@ == old(state)@.offer_destroyed(msg@),
{
    let key = (msg.client_id, msg.message.object_id);
    state.data_offers.remove(key);
    // The target has bowed out through this offer. A release still to come
    // resolves as a cancel, unless the client kept another offer it had
    // accepted through.
    if let Some(mut drag) = state.drag.take() {
        retain_other(&mut drag.focus_offers, key);
        state.drag = Some(drag);
    }
    // A server id, so this removes the object without a `delete_id` - the
    // client allocated nothing and has nothing to be told is free.
    state.unregister(msg.client_id, msg.message.object_id);
}

fn handle_finish(state: &mut CompositorState, msg: &WaylandProtocolMessageWithClientInfo)
    requires
        old(state).wf(),
    ensures
        final(state).wf(),
        final(state)@ == old(state)@.offer_finished(msg@),
{
    proof {
        reveal_strlit("wl_data_offer.finish: nothing has been dropped on this offer");
    }
    let key = (msg.client_id, msg.message.object_id);
    let dropped = match state.data_offers.get(key) {
        Some(offer) => offer.kind == OfferKind::Dropped,
        None => false,
    };
    if !dropped {
        state.fail(
            msg.client_id,
            msg.message.object_id,
            ERROR_INVALID_FINISH,
            "wl_data_offer.finish: nothing has been dropped on this offer",
        );
        return ;
    }
    // Spent: the source has been told the transfer is done, so there is nothing
    // left to read. The object stays until the client destroys it.
    let source = match state.data_offers.get_mut(key) {
        Some(offer) => offer.source.take(),
        None => None,
    };
    if let Some(source) = source {
        wl_data_source::send_dnd_finished(state, source);
    }
}

fn handle_set_actions(state: &mut CompositorState, msg: &WaylandProtocolMessageWithClientInfo)
    requires
        old(state).wf(),
    ensures
        final(state).wf(),
        final(state)@ == old(state)@.offer_actions_set(msg@),
{
    proof {
        reveal_strlit("wl_data_offer");
        reveal_strlit("wl_data_offer.set_actions: mask has actions the protocol does not define");
        reveal_strlit("wl_data_offer.set_actions: preferred action is not one of the accepted ones");
    }
    let mut args = ArgReader::new(msg.message.args.as_slice());
    let (a, b) = (args.u32(), args.u32());
    let (actions, preferred): (u32, u32) = match (a, b) {
        (Some(a), Some(b)) => (a, b),
        _ => {
            malformed_request(state, msg, "wl_data_offer");
            return ;
        },
    };
    if actions & !DND_ACTION_ALL != 0 {
        state.fail(
            msg.client_id,
            msg.message.object_id,
            ERROR_INVALID_ACTION_MASK,
            "wl_data_offer.set_actions: mask has actions the protocol does not define",
        );
        return ;
    }
    // A preference must be a single action, and one the client said it would
    // accept - otherwise it is asking for something it has just refused.
    let single = preferred == 1 || preferred == 2 || preferred == 4;
    if preferred != 0 && (!single || preferred & actions == 0) {
        state.fail(
            msg.client_id,
            msg.message.object_id,
            ERROR_INVALID_ACTION,
            "wl_data_offer.set_actions: preferred action is not one of the accepted ones",
        );
        return ;
    }
    let key = (msg.client_id, msg.message.object_id);
    if let Some(offer) = state.data_offers.get_mut(key) {
        offer.actions = actions;
        offer.preferred_action = preferred;
    }
    state.resolve_offer_action(key);
}

/// Send `wl_data_offer.offer`, naming one mime type the source can produce.
pub fn send_offer(state: &mut CompositorState, offer: ClientObjectId, mime_type: &str)
    requires
        old(state).wf(),
        wire::writable(mime_type@),
    ensures
        final(state).wf(),
        final(state)@ == old(state)@.mime_told(offer, mime_type@),
{
    let args = ArgWriter::new().string(mime_type).build();
    state.send(offer.0, build_message(offer.1, OFFER, args));
}

/// Send `wl_data_offer.source_actions`: everything the source will allow.
///
/// Sent before `wl_data_device.enter`, so the client has the whole picture at
/// the moment it decides what to accept.
pub fn send_source_actions(state: &mut CompositorState, offer: ClientObjectId, actions: u32)
    requires
        old(state).wf(),
    ensures
        final(state).wf(),
        final(state)@ == old(state)@.source_actions_told(offer, actions),
{
    if state.speaks(offer.0, offer.1, ACTIONS_SINCE) {
        state.send(offer.0, tell1(offer.1, SOURCE_ACTIONS, actions));
    }
}

/// Send `wl_data_offer.action`: the action the two sides have settled on.
pub fn send_action(state: &mut CompositorState, offer: ClientObjectId, action: u32)
    requires
        old(state).wf(),
    ensures
        final(state).wf(),
        final(state)@ == old(state)@.offer_action_told(offer, action),
{
    if state.speaks(offer.0, offer.1, ACTIONS_SINCE) {
        state.send(offer.0, tell1(offer.1, ACTION, action));
    }
}

} // verus!

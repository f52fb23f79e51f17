//! `wl_display` protocol handler.
//!
//! The one object every client starts with. It hands out registries, and
//! answers `sync` once everything asked before it has been done.

use crate::client::ObjectType;
use crate::protocol::{malformed_request, unknown_request, wl_callback, wl_registry};
use crate::state::{CompositorState, State};
use crate::wire::{ArgReader, Request, WaylandProtocolMessageWithClientInfo};
use vstd::prelude::*;

verus! {

/// The id the display goes by.
pub const OBJECT_ID: u32 = 1;

// Request opcodes
pub const SYNC: u16 = 0;

pub const GET_REGISTRY: u16 = 1;

// Event opcodes
pub const ERROR: u16 = 0;

pub const DELETE_ID: u16 = 1;

impl State {
    /// The state once a client has been told that everything it asked before
    /// has been done.
    pub open spec fn synced(self, r: Request) -> Self {
        match r.word(0) {
            Some(callback) => {
                let s = self.registered(r.client, callback, ObjectType::WlCallback);
                if self.can_register(r.client, callback) {
                    s.ticked().callback_done(r.client, callback, s.next_serial)
                } else {
                    s
                }
            },
            None => self.malformed(r, "wl_display"@),
        }
    }

    /// The state once a client has a registry, and knows what there is.
    pub open spec fn registry_made(self, r: Request) -> Self {
        match r.word(0) {
            Some(registry) => {
                let s = self.registered(r.client, registry, ObjectType::WlRegistry);
                if self.can_register(r.client, registry) {
                    s.globals_told(r.client, registry)
                } else {
                    s
                }
            },
            None => self.malformed(r, "wl_display"@),
        }
    }

    /// The state once a `wl_display` request has been handled.
    pub open spec fn wl_display_handled(self, r: Request) -> Self {
        if r.op == SYNC {
            self.synced(r)
        } else if r.op == GET_REGISTRY {
            self.registry_made(r)
        } else {
            self.rejected(r, "wl_display"@)
        }
    }
}

pub fn handle(state: &mut CompositorState, msg: &WaylandProtocolMessageWithClientInfo)
    requires
        old(state).wf(),
    ensures
        final(state).wf(),
        final(state)@ == old(state)@.wl_display_handled(msg@),
{
    proof {
        reveal_strlit("wl_display");
    }
    match msg.message.op_code {
        SYNC => handle_sync(state, msg),
        GET_REGISTRY => handle_get_registry(state, msg),
        _ => unknown_request(state, msg, "wl_display"),
    }
}

fn handle_sync(state: &mut CompositorState, msg: &WaylandProtocolMessageWithClientInfo)
    requires
        old(state).wf(),
    ensures
        final(state).wf(),
        final(state)@ == old(state)@.synced(msg@),
{
    proof {
        reveal_strlit("wl_display");
    }
    let mut args = ArgReader::new(msg.message.args.as_slice());
    match args.new_id() {
        Some(callback) => {
            if state.register(msg.client_id, callback, ObjectType::WlCallback) {
                let serial: u32 = state.next_serial();
                wl_callback::send_done(state, msg.client_id, callback, serial);
            }
        },
        None => malformed_request(state, msg, "wl_display"),
    }
}

fn handle_get_registry(state: &mut CompositorState, msg: &WaylandProtocolMessageWithClientInfo)
    requires
        old(state).wf(),
    ensures
        final(state).wf(),
        final(state)@ == old(state)@.registry_made(msg@),
{
    proof {
        reveal_strlit("wl_display");
    }
    let mut args = ArgReader::new(msg.message.args.as_slice());
    match args.new_id() {
        Some(registry) => {
            if state.register(msg.client_id, registry, ObjectType::WlRegistry) {
                wl_registry::advertise_globals(state, msg.client_id, registry);
            }
        },
        None => malformed_request(state, msg, "wl_display"),
    }
}

} // verus!

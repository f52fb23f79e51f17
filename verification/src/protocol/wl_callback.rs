//! `wl_callback` protocol handler.
//!
//! A callback is answered once, with `done`, and is gone. Clients send it
//! nothing.

use crate::protocol::unknown_request;
use crate::state::{CompositorState, State};
use crate::wire::{self, tell1, Request, WaylandProtocolMessageWithClientInfo};
use vstd::prelude::*;

verus! {

// Event opcodes
pub const DONE: u16 = 0;

impl State {
    /// The state once a callback has been answered.
    pub open spec fn callback_done(self, client_id: u32, callback_id: u32, data: u32) -> Self {
        self.sent(client_id, wire::told1(callback_id, DONE, data)).unregistered(
            client_id,
            callback_id,
        )
    }

    /// The state once a `wl_callback` request has been handled.
    pub open spec fn wl_callback_handled(self, r: Request) -> Self {
        self.rejected(r, "wl_callback"@)
    }
}

pub fn handle(state: &mut CompositorState, msg: &WaylandProtocolMessageWithClientInfo)
    requires
        old(state).wf(),
    ensures
        final(state).wf(),
        final(state)@ == old(state)@.wl_callback_handled(msg@),
{
    proof {
        reveal_strlit("wl_callback");
    }
    unknown_request(state, msg, "wl_callback");
}

/// Answer a callback. It is gone afterwards.
pub fn send_done(state: &mut CompositorState, client_id: u32, callback_id: u32, data: u32)
    requires
        old(state).wf(),
    ensures
        final(state).wf(),
        final(state)@ == old(state)@.callback_done(client_id, callback_id, data),
{
    state.send(client_id, tell1(callback_id, DONE, data));
    state.unregister(client_id, callback_id);
}

} // verus!

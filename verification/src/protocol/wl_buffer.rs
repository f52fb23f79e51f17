//! `wl_buffer` protocol handler.
//!
//! A buffer is content a client has drawn. It is the client's again once
//! `release` has been sent.

use crate::protocol::unknown_request;
use crate::state::{CompositorState, State};
use crate::wire::{self, tell0, Request, WaylandProtocolMessageWithClientInfo};
use vstd::prelude::*;

verus! {

// Request opcodes
pub const DESTROY: u16 = 0;

// Event opcodes
pub const RELEASE: u16 = 0;

impl State {
    /// The state once a client knows that a buffer is its own again.
    pub open spec fn release_told(self, client_id: u32, buffer_id: u32) -> Self {
        self.sent(client_id, wire::told0(buffer_id, RELEASE))
    }

    /// The state once a `wl_buffer` request has been handled.
    pub open spec fn wl_buffer_handled(self, r: Request) -> Self {
        if r.op == DESTROY {
            self.buffer_destroyed(r.client, r.object).unregistered(r.client, r.object)
        } else {
            self.rejected(r, "wl_buffer"@)
        }
    }
}

pub fn handle(state: &mut CompositorState, msg: &WaylandProtocolMessageWithClientInfo)
    requires
        old(state).wf(),
    ensures
        final(state).wf(),
        final(state)@ == old(state)@.wl_buffer_handled(msg@),
{
    proof {
        reveal_strlit("wl_buffer");
    }
    match msg.message.op_code {
        DESTROY => {
            state.destroy_buffer(msg.client_id, msg.message.object_id);
            state.unregister(msg.client_id, msg.message.object_id);
        },
        _ => unknown_request(state, msg, "wl_buffer"),
    }
}

/// Send `wl_buffer.release`: the client may draw into the buffer again.
pub fn send_release(state: &mut CompositorState, client_id: u32, buffer_id: u32)
    requires
        old(state).wf(),
    ensures
        final(state).wf(),
        final(state)@ == old(state)@.release_told(client_id, buffer_id),
{
    state.send(client_id, tell0(buffer_id, RELEASE));
}

} // verus!

//! `wp_viewporter` protocol handler.
//!
//! Lets clients put a viewport on a surface, to crop and scale its buffer.

use crate::client::ObjectType;
use crate::protocol::{malformed_request, unknown_request};
use crate::state::{CompositorState, State};
use crate::wire::{ArgReader, Request, WaylandProtocolMessageWithClientInfo};
use vstd::prelude::*;

verus! {

// Request opcodes
pub const DESTROY: u16 = 0;

pub const GET_VIEWPORT: u16 = 1;

/// `wp_viewporter.error.viewport_exists`
pub const ERROR_VIEWPORT_EXISTS: u32 = 0;

impl State {
    /// The state once a client has put a viewport on a surface. A surface has
    /// one at most.
    pub open spec fn viewport_asked(self, r: Request) -> Self {
        match (r.word(0), r.word(4)) {
            (Some(id), Some(surface)) => if self.surface_viewport.contains_key(
                (r.client, surface),
            ) {
                self.errored(
                    r.client,
                    r.object,
                    ERROR_VIEWPORT_EXISTS,
                    "wp_viewporter.get_viewport: the surface already has a viewport"@,
                )
            } else {
                let s = self.registered(r.client, id, ObjectType::WpViewport);
                if self.can_register(r.client, id) {
                    s.viewport_created(r.client, id, surface)
                } else {
                    s
                }
            },
            _ => self.malformed(r, "wp_viewporter"@),
        }
    }

    /// The state once a `wp_viewporter` request has been handled.
    pub open spec fn wp_viewporter_handled(self, r: Request) -> Self {
        if r.op == DESTROY {
            self.unregistered(r.client, r.object)
        } else if r.op == GET_VIEWPORT {
            self.viewport_asked(r)
        } else {
            self.rejected(r, "wp_viewporter"@)
        }
    }
}

pub fn handle(state: &mut CompositorState, msg: &WaylandProtocolMessageWithClientInfo)
    requires
        old(state).wf(),
    ensures
        final(state).wf(),
        final(state)@ == old(state)@.wp_viewporter_handled(msg@),
{
    proof {
        reveal_strlit("wp_viewporter");
    }
    match msg.message.op_code {
        DESTROY => state.unregister(msg.client_id, msg.message.object_id),
        GET_VIEWPORT => handle_get_viewport(state, msg),
        _ => unknown_request(state, msg, "wp_viewporter"),
    }
}

fn handle_get_viewport(state: &mut CompositorState, msg: &WaylandProtocolMessageWithClientInfo)
    requires
        old(state).wf(),
    ensures
        final(state).wf(),
        final(state)@ == old(state)@.viewport_asked(msg@),
{
    proof {
        reveal_strlit("wp_viewporter");
        reveal_strlit("wp_viewporter.get_viewport: the surface already has a viewport");
    }
    let mut args = ArgReader::new(msg.message.args.as_slice());
    let (id, surface) = (args.new_id(), args.u32());
    match (id, surface) {
        (Some(id), Some(surface)) => {
            if state.surface_viewport.contains_key((msg.client_id, surface)) {
                state.fail(
                    msg.client_id,
                    msg.message.object_id,
                    ERROR_VIEWPORT_EXISTS,
                    "wp_viewporter.get_viewport: the surface already has a viewport",
                );
            } else if state.register(msg.client_id, id, ObjectType::WpViewport) {
                state.create_viewport(msg.client_id, id, surface);
            }
        },
        _ => malformed_request(state, msg, "wp_viewporter"),
    }
}

} // verus!

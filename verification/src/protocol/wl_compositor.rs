//! `wl_compositor` protocol handler.
//!
//! The compositor global allows clients to create surfaces and regions.
//! Surfaces are the fundamental drawing primitive in Wayland - clients
//! attach buffers to them and commit to make content visible.

use crate::client::ObjectType;
use crate::protocol::unknown_request;
use crate::state::{CompositorState, State};
use crate::wire::{ArgReader, Request, WaylandProtocolMessageWithClientInfo};
use vstd::prelude::*;

verus! {

// Request opcodes
pub const CREATE_SURFACE: u16 = 0;

pub const CREATE_REGION: u16 = 1;

impl State {
    /// The state once a client has made a surface.
    pub open spec fn surface_asked(self, r: Request) -> Self {
        match r.word(0) {
            Some(id) => {
                let s = self.registered_as(r, id, ObjectType::WlSurface);
                if self.can_register(r.client, id) {
                    s.surface_created(r.client, id)
                } else {
                    s
                }
            },
            None => self.errored(r.client, r.object, 0, "wl_compositor.create_surface: malformed args"@),
        }
    }

    /// The state once a client has made a region.
    pub open spec fn region_asked(self, r: Request) -> Self {
        match r.word(0) {
            Some(id) => {
                let s = self.registered_as(r, id, ObjectType::WlRegion);
                if self.can_register(r.client, id) {
                    s.region_created(r.client, id)
                } else {
                    s
                }
            },
            None => self.errored(r.client, r.object, 0, "wl_compositor.create_region: malformed args"@),
        }
    }

    /// The state once a `wl_compositor` request has been handled.
    pub open spec fn wl_compositor_handled(self, r: Request) -> Self {
        if r.op == CREATE_SURFACE {
            self.surface_asked(r)
        } else if r.op == CREATE_REGION {
            self.region_asked(r)
        } else {
            self.rejected(r, "wl_compositor"@)
        }
    }
}

pub fn handle(state: &mut CompositorState, msg: &WaylandProtocolMessageWithClientInfo)
    requires
        old(state).wf(),
    ensures
        final(state).wf(),
        final(state)@ == old(state)@.wl_compositor_handled(msg@),
{
    proof {
        reveal_strlit("wl_compositor");
    }
    match msg.message.op_code {
        CREATE_SURFACE => handle_create_surface(state, msg),
        CREATE_REGION => handle_create_region(state, msg),
        _ => unknown_request(state, msg, "wl_compositor"),
    }
}

fn handle_create_surface(state: &mut CompositorState, msg: &WaylandProtocolMessageWithClientInfo)
    requires
        old(state).wf(),
    ensures
        final(state).wf(),
        final(state)@ == old(state)@.surface_asked(msg@),
{
    let mut args = ArgReader::new(msg.message.args.as_slice());
    match args.new_id() {
        Some(id) => {
            if state.register_as(msg, id, ObjectType::WlSurface) {
                state.create_surface(msg.client_id, id);
            }
        },
        None => {
            proof {
                reveal_strlit("wl_compositor.create_surface: malformed args");
            }
            state.fail(
                msg.client_id,
                msg.message.object_id,
                0,
                "wl_compositor.create_surface: malformed args",
            );
        },
    }
}

fn handle_create_region(state: &mut CompositorState, msg: &WaylandProtocolMessageWithClientInfo)
    requires
        old(state).wf(),
    ensures
        final(state).wf(),
        final(state)@ == old(state)@.region_asked(msg@),
{
    let mut args = ArgReader::new(msg.message.args.as_slice());
    match args.new_id() {
        Some(id) => {
            if state.register_as(msg, id, ObjectType::WlRegion) {
                state.create_region(msg.client_id, id);
            }
        },
        None => {
            proof {
                reveal_strlit("wl_compositor.create_region: malformed args");
            }
            state.fail(
                msg.client_id,
                msg.message.object_id,
                0,
                "wl_compositor.create_region: malformed args",
            );
        },
    }
}

} // verus!

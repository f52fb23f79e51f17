//! `xdg_wm_base` protocol handler.
//!
//! The `xdg_wm_base` global lets clients create `xdg_surfaces` (window-managed
//! surfaces). Also handles the ping/pong liveness protocol.

use crate::client::ObjectType;
use crate::protocol::{acknowledge, unknown_request};
use crate::state::{CompositorState, State};
use crate::wire::{self, tell1, ArgReader, Request, WaylandProtocolMessageWithClientInfo};
use vstd::prelude::*;

verus! {

// Request opcodes
pub const DESTROY: u16 = 0;

pub const CREATE_POSITIONER: u16 = 1;

pub const GET_XDG_SURFACE: u16 = 2;

pub const PONG: u16 = 3;

// Event opcodes
pub const PING: u16 = 0;

impl State {
    /// The state once a client has made a positioner.
    pub open spec fn positioner_asked(self, r: Request) -> Self {
        match r.word(0) {
            Some(id) => {
                let s = self.registered(r.client, id, ObjectType::XdgPositioner);
                if self.can_register(r.client, id) {
                    s.positioner_created(r.client, id)
                } else {
                    s
                }
            },
            None => self.errored(
                r.client,
                r.object,
                0,
                "xdg_wm_base.create_positioner: malformed args"@,
            ),
        }
    }

    /// The state once a client has wrapped a surface. A cursor is no window, and
    /// neither is a drag icon.
    pub open spec fn xdg_surface_asked(self, r: Request) -> Self {
        match (r.word(0), r.word(4)) {
            (Some(xdg_surface_id), Some(surface_id)) => if self.cursor_role_surfaces.contains(
                (r.client, surface_id),
            ) {
                self.errored(
                    r.client,
                    r.object,
                    0,
                    "xdg_wm_base.get_xdg_surface: surface already has cursor role"@,
                )
            } else if self.dnd_icon_surfaces.contains((r.client, surface_id)) {
                self.errored(
                    r.client,
                    r.object,
                    0,
                    "xdg_wm_base.get_xdg_surface: surface already has drag icon role"@,
                )
            } else {
                let s = self.registered_as(r, xdg_surface_id, ObjectType::XdgSurface);
                if self.can_register(r.client, xdg_surface_id) {
                    s.xdg_surface_created(r.client, xdg_surface_id, surface_id)
                } else {
                    s
                }
            },
            _ => self.errored(
                r.client,
                r.object,
                0,
                "xdg_wm_base.get_xdg_surface: malformed args"@,
            ),
        }
    }

    /// The state once an `xdg_wm_base` request has been handled.
    pub open spec fn xdg_wm_base_handled(self, r: Request) -> Self {
        if r.op == DESTROY {
            self.unregistered(r.client, r.object)
        } else if r.op == CREATE_POSITIONER {
            self.positioner_asked(r)
        } else if r.op == GET_XDG_SURFACE {
            self.xdg_surface_asked(r)
        } else if r.op == PONG {
            self.acknowledged(r, 1, "xdg_wm_base"@)
        } else {
            self.rejected(r, "xdg_wm_base"@)
        }
    }
}

pub fn handle(state: &mut CompositorState, msg: &WaylandProtocolMessageWithClientInfo)
    requires
        old(state).wf(),
    ensures
        final(state).wf(),
        final(state)@ == old(state)@.xdg_wm_base_handled(msg@),
{
    proof {
        reveal_strlit("xdg_wm_base");
    }
    match msg.message.op_code {
        DESTROY => state.unregister(msg.client_id, msg.message.object_id),
        CREATE_POSITIONER => handle_create_positioner(state, msg),
        GET_XDG_SURFACE => handle_get_xdg_surface(state, msg),
        // A client that answers is alive, and nothing more.
        PONG => {
            acknowledge(state, msg, 1, "xdg_wm_base");
        },
        _ => unknown_request(state, msg, "xdg_wm_base"),
    }
}

fn handle_create_positioner(state: &mut CompositorState, msg: &WaylandProtocolMessageWithClientInfo)
    requires
        old(state).wf(),
    ensures
        final(state).wf(),
        final(state)@ == old(state)@.positioner_asked(msg@),
{
    let mut args = ArgReader::new(msg.message.args.as_slice());
    match args.new_id() {
        Some(id) => {
            if state.register(msg.client_id, id, ObjectType::XdgPositioner) {
                state.create_xdg_positioner(msg.client_id, id);
            }
        },
        None => {
            proof {
                reveal_strlit("xdg_wm_base.create_positioner: malformed args");
            }
            state.fail(
                msg.client_id,
                msg.message.object_id,
                0,
                "xdg_wm_base.create_positioner: malformed args",
            );
        },
    }
}

/// Wrap a surface. The version goes with it, so that what is made from it in
/// turn knows which events it may be sent.
fn handle_get_xdg_surface(state: &mut CompositorState, msg: &WaylandProtocolMessageWithClientInfo)
    requires
        old(state).wf(),
    ensures
        final(state).wf(),
        final(state)@ == old(state)@.xdg_surface_asked(msg@),
{
    let mut args = ArgReader::new(msg.message.args.as_slice());
    // get_xdg_surface args: new_id, object surface
    let (xdg_surface_id, surface_id) = (args.new_id(), args.u32());
    match (xdg_surface_id, surface_id) {
        (Some(xdg_surface_id), Some(surface_id)) => {
            if state.cursor_role_surfaces.contains((msg.client_id, surface_id)) {
                proof {
                    reveal_strlit("xdg_wm_base.get_xdg_surface: surface already has cursor role");
                }
                state.fail(
                    msg.client_id,
                    msg.message.object_id,
                    0,
                    "xdg_wm_base.get_xdg_surface: surface already has cursor role",
                );
                return ;
            }
            if state.dnd_icon_surfaces.contains((msg.client_id, surface_id)) {
                proof {
                    reveal_strlit(
                        "xdg_wm_base.get_xdg_surface: surface already has drag icon role",
                    );
                }
                state.fail(
                    msg.client_id,
                    msg.message.object_id,
                    0,
                    "xdg_wm_base.get_xdg_surface: surface already has drag icon role",
                );
                return ;
            }
            if state.register_as(msg, xdg_surface_id, ObjectType::XdgSurface) {
                state.create_xdg_surface(msg.client_id, xdg_surface_id, surface_id);
            }
        },
        _ => {
            proof {
                reveal_strlit("xdg_wm_base.get_xdg_surface: malformed args");
            }
            state.fail(
                msg.client_id,
                msg.message.object_id,
                0,
                "xdg_wm_base.get_xdg_surface: malformed args",
            );
        },
    }
}

/// Send a ping event to a client's `xdg_wm_base` object.
pub fn send_ping(state: &mut CompositorState, client_id: u32, wm_base_id: u32, serial: u32)
    requires
        old(state).wf(),
    ensures
        final(state).wf(),
        final(state)@ == old(state)@.sent(client_id, wire::told1(wm_base_id, PING, serial)),
{
    state.send(client_id, tell1(wm_base_id, PING, serial));
}

} // verus!

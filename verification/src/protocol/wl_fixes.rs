//! `wl_fixes` protocol handler.
//!
//! One global for problems in the core protocol that could not be fixed where
//! they arose. It carries a single repair so far: a way to destroy a
//! `wl_registry`.
//!
//! `wl_registry` has no `destroy` request of its own, so a client that binds a
//! registry can never give it back: the compositor keeps sending it `global`
//! and `global_remove` for the life of the connection and the id is never
//! freed. `destroy_registry` is the way out, and it has to live on a separate
//! interface because adding a request to `wl_registry` would have changed a
//! version every client already depends on.

use crate::client::ObjectType;
use crate::protocol::{malformed_request, unknown_request, ERROR_INVALID_OBJECT};
use crate::state::{CompositorState, State};
use crate::wire::{ArgReader, Request, WaylandProtocolMessageWithClientInfo};
use vstd::prelude::*;

verus! {

/// The version advertised.
pub const VERSION: u32 = 1;

// Request opcodes
pub const DESTROY: u16 = 0;

pub const DESTROY_REGISTRY: u16 = 1;

impl State {
    /// The state once a client has given a registry back. Only a registry of
    /// its own can be.
    pub open spec fn registry_destroyed(self, r: Request) -> Self {
        match r.word(0) {
            Some(id) => if self.has_object(r.client, id, ObjectType::WlRegistry) {
                self.unregistered(r.client, id)
            } else {
                self.errored(
                    r.client,
                    r.object,
                    ERROR_INVALID_OBJECT,
                    "wl_fixes.destroy_registry: not a wl_registry of this client"@,
                )
            },
            None => self.malformed(r, "wl_fixes"@),
        }
    }

    /// A client has an object of a type under an id.
    pub open spec fn has_object(self, client_id: u32, id: u32, object_type: ObjectType) -> bool {
        self.knows(client_id) && self.clients[client_id].objects.contains_key(id)
            && self.clients[client_id].objects[id] == object_type
    }

    /// The state once a `wl_fixes` request has been handled.
    pub open spec fn wl_fixes_handled(self, r: Request) -> Self {
        if r.op == DESTROY {
            self.unregistered(r.client, r.object)
        } else if r.op == DESTROY_REGISTRY {
            self.registry_destroyed(r)
        } else {
            self.rejected(r, "wl_fixes"@)
        }
    }
}

pub fn handle(state: &mut CompositorState, msg: &WaylandProtocolMessageWithClientInfo)
    requires
        old(state).wf(),
    ensures
        final(state).wf(),
        final(state)@ == old(state)@.wl_fixes_handled(msg@),
{
    proof {
        reveal_strlit("wl_fixes");
    }
    match msg.message.op_code {
        DESTROY => state.unregister(msg.client_id, msg.message.object_id),
        DESTROY_REGISTRY => handle_destroy_registry(state, msg),
        _ => unknown_request(state, msg, "wl_fixes"),
    }
}

/// Give a registry back.
///
/// Unregistering is the whole of it: a global that comes or goes is announced
/// to the registries clients have, so a registry that is gone stops being sent
/// to by construction.
fn handle_destroy_registry(state: &mut CompositorState, msg: &WaylandProtocolMessageWithClientInfo)
    requires
        old(state).wf(),
    ensures
        final(state).wf(),
        final(state)@ == old(state)@.registry_destroyed(msg@),
{
    proof {
        reveal_strlit("wl_fixes");
        reveal_strlit("wl_fixes.destroy_registry: not a wl_registry of this client");
    }
    let mut args = ArgReader::new(msg.message.args.as_slice());
    let registry_id: u32 = match args.u32() {
        Some(id) => id,
        None => {
            malformed_request(state, msg, "wl_fixes");
            return ;
        },
    };
    // The id must name a registry of this client's. Anything else is the
    // client and the compositor disagreeing about what that object is, which
    // is the same disagreement any wrong object id represents.
    let theirs = match state.clients.type_of(msg.client_id, registry_id) {
        Some(object_type) => object_type == ObjectType::WlRegistry,
        None => false,
    };
    if theirs {
        state.unregister(msg.client_id, registry_id);
    } else {
        state.fail(
            msg.client_id,
            msg.message.object_id,
            ERROR_INVALID_OBJECT,
            "wl_fixes.destroy_registry: not a wl_registry of this client",
        );
    }
}

} // verus!

//! `wl_subsurface` protocol handler.
//!
//! A subsurface is placed relative to the surface it hangs off.

use crate::objects::SurfaceView;
use crate::protocol::xdg_popup::unhang_surface;
use crate::protocol::{acknowledge, malformed_request, unknown_request};
use crate::state::{CompositorState, State};
use crate::tree;
use crate::windows::{self, clamp_surface_offset};
use crate::wire::{ArgReader, Request, WaylandProtocolMessageWithClientInfo};
use crate::workspace::ClientObjectId;
use vstd::prelude::*;

verus! {

// Request opcodes
pub const DESTROY: u16 = 0;

pub const SET_POSITION: u16 = 1;

pub const PLACE_ABOVE: u16 = 2;

pub const PLACE_BELOW: u16 = 3;

pub const SET_SYNC: u16 = 4;

pub const SET_DESYNC: u16 = 5;

impl State {
    /// The surface a subsurface object controls.
    pub open spec fn controlled(self, key: ClientObjectId) -> Option<ClientObjectId> {
        if self.subsurface_map.contains_key(key) && self.surfaces.contains_key(
            (key.0, self.subsurface_map[key]),
        ) {
            Some((key.0, self.subsurface_map[key]))
        } else {
            None
        }
    }

    /// The state once a subsurface is an ordinary surface again.
    pub open spec fn subsurface_destroyed(self, r: Request) -> Self {
        let s = match self.controlled(r.key()) {
            Some(surface) => self.surface_unhung(surface),
            None => self,
        };
        State { subsurface_map: s.subsurface_map.remove(r.key()), ..s }.unregistered(
            r.client,
            r.object,
        )
    }

    /// The state once a subsurface is somewhere else.
    pub open spec fn subsurface_moved(self, r: Request) -> Self {
        match (r.signed(0), r.signed(4)) {
            (Some(x), Some(y)) => match self.controlled(r.key()) {
                Some(surface) => self.surface_changed(
                    surface,
                    SurfaceView {
                        subsurface_position: windows::offset_held(x as int, y as int),
                        ..self.surfaces[surface]
                    },
                ).dirtied(),
                None => self,
            },
            _ => self.malformed(r, "wl_subsurface"@),
        }
    }

    /// The state once a subsurface waits for its parent, or does not.
    pub open spec fn sync_set(self, r: Request, sync: bool) -> Self {
        match self.controlled(r.key()) {
            Some(surface) => self.surface_changed(
                surface,
                SurfaceView { subsurface_sync: sync, ..self.surfaces[surface] },
            ),
            None => self,
        }
    }

    /// The state once a `wl_subsurface` request has been handled.
    pub open spec fn wl_subsurface_handled(self, r: Request) -> Self {
        if r.op == DESTROY {
            self.subsurface_destroyed(r)
        } else if r.op == SET_POSITION {
            self.subsurface_moved(r)
        } else if r.op == PLACE_ABOVE || r.op == PLACE_BELOW {
            self.acknowledged(r, 1, "wl_subsurface"@)
        } else if r.op == SET_SYNC {
            self.sync_set(r, true)
        } else if r.op == SET_DESYNC {
            self.sync_set(r, false)
        } else {
            self.rejected(r, "wl_subsurface"@)
        }
    }
}

pub fn handle(state: &mut CompositorState, msg: &WaylandProtocolMessageWithClientInfo)
    requires
        old(state).wf(),
    ensures
        final(state).wf(),
        final(state)@ == old(state)@.wl_subsurface_handled(msg@),
{
    proof {
        reveal_strlit("wl_subsurface");
    }
    match msg.message.op_code {
        DESTROY => handle_destroy(state, msg),
        SET_POSITION => handle_set_position(state, msg),
        // Siblings are drawn in the order they were made.
        PLACE_ABOVE | PLACE_BELOW => {
            acknowledge(state, msg, 1, "wl_subsurface");
        },
        SET_SYNC => set_sync(state, msg, true),
        SET_DESYNC => set_sync(state, msg, false),
        _ => unknown_request(state, msg, "wl_subsurface"),
    }
}

/// The surface a subsurface object controls, if there still is one.
fn controlled_surface(state: &CompositorState, key: ClientObjectId) -> (r: Option<ClientObjectId>)
    requires
        state.wf(),
    ensures
        r == state@.controlled(key),
{
    match state.subsurface_map.get(key) {
        Some(id) => {
            let surface = (key.0, *id);
            if state.surfaces.contains_key(surface) {
                Some(surface)
            } else {
                None
            }
        },
        None => None,
    }
}

fn handle_destroy(state: &mut CompositorState, msg: &WaylandProtocolMessageWithClientInfo)
    requires
        old(state).wf(),
    ensures
        final(state).wf(),
        final(state)@ == old(state)@.subsurface_destroyed(msg@),
{
    let key = (msg.client_id, msg.message.object_id);
    if let Some(surface) = controlled_surface(state, key) {
        unhang_surface(state, surface);
    }
    state.subsurface_map.remove(key);
    state.unregister(msg.client_id, msg.message.object_id);
}

fn handle_set_position(state: &mut CompositorState, msg: &WaylandProtocolMessageWithClientInfo)
    requires
        old(state).wf(),
    ensures
        final(state).wf(),
        final(state)@ == old(state)@.subsurface_moved(msg@),
{
    proof {
        reveal_strlit("wl_subsurface");
    }
    let mut args = ArgReader::new(msg.message.args.as_slice());
    let (x, y) = (args.i32(), args.i32());
    match (x, y) {
        (Some(x), Some(y)) => {
            if let Some(key) = controlled_surface(state, (msg.client_id, msg.message.object_id)) {
                let position: (i32, i32) = clamp_surface_offset(x, y);
                if let Some(surface) = state.surfaces.get_mut(key) {
                    surface.subsurface_position = position;
                }
                state.dirty = true;
                assert(tree::surface_links(state@.surfaces) =~= tree::surface_links(
                    old(state)@.surfaces,
                ));
            }
        },
        _ => malformed_request(state, msg, "wl_subsurface"),
    }
}

fn set_sync(state: &mut CompositorState, msg: &WaylandProtocolMessageWithClientInfo, sync: bool)
    requires
        old(state).wf(),
    ensures
        final(state).wf(),
        final(state)@ == old(state)@.sync_set(msg@, sync),
{
    if let Some(key) = controlled_surface(state, (msg.client_id, msg.message.object_id)) {
        if let Some(surface) = state.surfaces.get_mut(key) {
            surface.subsurface_sync = sync;
        }
        assert(tree::surface_links(state@.surfaces) =~= tree::surface_links(old(state)@.surfaces));
    }
}

} // verus!

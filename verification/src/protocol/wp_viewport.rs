//! `wp_viewport` protocol handler.
//!
//! A viewport says which part of a buffer a surface shows, and at what size.
//! Both take effect with the surface's next commit.

use crate::objects::ViewportState;
use crate::protocol::{malformed_request, unknown_request};
use crate::state::{CompositorState, State};
use crate::wire::{ArgReader, Request, WaylandProtocolMessageWithClientInfo};
use crate::workspace::ClientObjectId;
use vstd::prelude::*;

verus! {

// Request opcodes
pub const DESTROY: u16 = 0;

pub const SET_SOURCE: u16 = 1;

pub const SET_DESTINATION: u16 = 2;

/// `wp_viewport.error.bad_value`
pub const ERROR_BAD_VALUE: u32 = 0;

/// One below zero, as the wire writes a fixed-point number.
pub const UNSET_FIXED: i32 = -256;

impl State {
    /// The state once a viewport is another.
    pub open spec fn viewport_changed(self, key: ClientObjectId, viewport: ViewportState) -> Self {
        if self.viewports.contains_key(key) {
            State { viewports: self.viewports.insert(key, viewport), ..self }
        } else {
            self
        }
    }

    /// The state once a client has said which part of a buffer to show.
    pub open spec fn source_set(self, r: Request) -> Self {
        let v = self.viewports[r.key()];
        match (r.signed(0), r.signed(4), r.signed(8), r.signed(12)) {
            (Some(x), Some(y), Some(width), Some(height)) => if x == UNSET_FIXED && y == UNSET_FIXED
                && width == UNSET_FIXED && height == UNSET_FIXED {
                self.viewport_changed(
                    r.key(),
                    ViewportState { source: None, pending_source: None, ..v },
                )
            } else if x < 0 || y < 0 || width <= 0 || height <= 0 {
                self.errored(
                    r.client,
                    r.object,
                    ERROR_BAD_VALUE,
                    "wp_viewport.set_source: not a rectangle"@,
                )
            } else {
                self.viewport_changed(
                    r.key(),
                    ViewportState { pending_source: Some((x, y, width, height)), ..v },
                )
            },
            _ => self.malformed(r, "wp_viewport"@),
        }
    }

    /// The state once a client has said how large to show a buffer.
    pub open spec fn destination_set(self, r: Request) -> Self {
        let v = self.viewports[r.key()];
        match (r.signed(0), r.signed(4)) {
            (Some(width), Some(height)) => if width == -1 && height == -1 {
                self.viewport_changed(
                    r.key(),
                    ViewportState { destination: None, pending_destination: None, ..v },
                )
            } else if width <= 0 || height <= 0 {
                self.errored(
                    r.client,
                    r.object,
                    ERROR_BAD_VALUE,
                    "wp_viewport.set_destination: not a size"@,
                )
            } else {
                self.viewport_changed(
                    r.key(),
                    ViewportState { pending_destination: Some((width, height)), ..v },
                )
            },
            _ => self.malformed(r, "wp_viewport"@),
        }
    }

    /// The state once a `wp_viewport` request has been handled.
    pub open spec fn wp_viewport_handled(self, r: Request) -> Self {
        if r.op == DESTROY {
            self.viewport_destroyed(r.client, r.object).unregistered(r.client, r.object)
        } else if r.op == SET_SOURCE {
            self.source_set(r)
        } else if r.op == SET_DESTINATION {
            self.destination_set(r)
        } else {
            self.rejected(r, "wp_viewport"@)
        }
    }
}

pub fn handle(state: &mut CompositorState, msg: &WaylandProtocolMessageWithClientInfo)
    requires
        old(state).wf(),
    ensures
        final(state).wf(),
        final(state)@ == old(state)@.wp_viewport_handled(msg@),
{
    proof {
        reveal_strlit("wp_viewport");
    }
    match msg.message.op_code {
        DESTROY => {
            state.destroy_viewport(msg.client_id, msg.message.object_id);
            state.unregister(msg.client_id, msg.message.object_id);
        },
        SET_SOURCE => handle_set_source(state, msg),
        SET_DESTINATION => handle_set_destination(state, msg),
        _ => unknown_request(state, msg, "wp_viewport"),
    }
}

fn handle_set_source(state: &mut CompositorState, msg: &WaylandProtocolMessageWithClientInfo)
    requires
        old(state).wf(),
    ensures
        final(state).wf(),
        final(state)@ == old(state)@.source_set(msg@),
{
    proof {
        reveal_strlit("wp_viewport");
        reveal_strlit("wp_viewport.set_source: not a rectangle");
    }
    let mut args = ArgReader::new(msg.message.args.as_slice());
    let (x, y, width, height) = (args.fixed(), args.fixed(), args.fixed(), args.fixed());
    match (x, y, width, height) {
        (Some(x), Some(y), Some(width), Some(height)) => {
            let unset = x == UNSET_FIXED && y == UNSET_FIXED && width == UNSET_FIXED && height
                == UNSET_FIXED;
            if !unset && (x < 0 || y < 0 || width <= 0 || height <= 0) {
                state.fail(
                    msg.client_id,
                    msg.message.object_id,
                    ERROR_BAD_VALUE,
                    "wp_viewport.set_source: not a rectangle",
                );
                return ;
            }
            if let Some(v) = state.viewports.get_mut((msg.client_id, msg.message.object_id)) {
                if unset {
                    v.source = None;
                    v.pending_source = None;
                } else {
                    v.pending_source = Some((x, y, width, height));
                }
            }
        },
        _ => malformed_request(state, msg, "wp_viewport"),
    }
}

fn handle_set_destination(state: &mut CompositorState, msg: &WaylandProtocolMessageWithClientInfo)
    requires
        old(state).wf(),
    ensures
        final(state).wf(),
        final(state)@ == old(state)@.destination_set(msg@),
{
    proof {
        reveal_strlit("wp_viewport");
        reveal_strlit("wp_viewport.set_destination: not a size");
    }
    let mut args = ArgReader::new(msg.message.args.as_slice());
    let (width, height) = (args.i32(), args.i32());
    match (width, height) {
        (Some(width), Some(height)) => {
            let unset = width == -1 && height == -1;
            if !unset && (width <= 0 || height <= 0) {
                state.fail(
                    msg.client_id,
                    msg.message.object_id,
                    ERROR_BAD_VALUE,
                    "wp_viewport.set_destination: not a size",
                );
                return ;
            }
            if let Some(v) = state.viewports.get_mut((msg.client_id, msg.message.object_id)) {
                if unset {
                    v.destination = None;
                    v.pending_destination = None;
                } else {
                    v.pending_destination = Some((width, height));
                }
            }
        },
        _ => malformed_request(state, msg, "wp_viewport"),
    }
}

} // verus!

//! `wl_region` protocol handler.
//!
//! A region is built by adding and subtracting rectangles, in order.

use crate::objects::{RegionOp, RegionRect, RegionView};
use crate::protocol::{malformed_request, unknown_request};
use crate::state::{CompositorState, State};
use crate::wire::{ArgReader, Request, WaylandProtocolMessageWithClientInfo};
use vstd::prelude::*;

verus! {

// Request opcodes
pub const DESTROY: u16 = 0;

pub const ADD: u16 = 1;

pub const SUBTRACT: u16 = 2;

impl State {
    /// The state once a client has changed a region.
    pub open spec fn region_changed(self, r: Request, op: RegionOp) -> Self {
        match (r.signed(0), r.signed(4), r.signed(8), r.signed(12)) {
            (Some(x), Some(y), Some(width), Some(height)) => if self.regions.contains_key(r.key()) {
                let region = self.regions[r.key()];
                State {
                    regions: self.regions.insert(
                        r.key(),
                        RegionView {
                            rects: region.rects.push(RegionRect { op, x, y, width, height }),
                            ..region
                        },
                    ),
                    ..self
                }
            } else {
                self
            },
            _ => self.malformed(r, "wl_region"@),
        }
    }

    /// The state once a `wl_region` request has been handled.
    pub open spec fn wl_region_handled(self, r: Request) -> Self {
        if r.op == DESTROY {
            self.region_destroyed(r.client, r.object).unregistered(r.client, r.object)
        } else if r.op == ADD {
            self.region_changed(r, RegionOp::Add)
        } else if r.op == SUBTRACT {
            self.region_changed(r, RegionOp::Subtract)
        } else {
            self.rejected(r, "wl_region"@)
        }
    }
}

pub fn handle(state: &mut CompositorState, msg: &WaylandProtocolMessageWithClientInfo)
    requires
        old(state).wf(),
    ensures
        final(state).wf(),
        final(state)@ == old(state)@.wl_region_handled(msg@),
{
    proof {
        reveal_strlit("wl_region");
    }
    match msg.message.op_code {
        DESTROY => {
            state.destroy_region(msg.client_id, msg.message.object_id);
            state.unregister(msg.client_id, msg.message.object_id);
        },
        ADD => handle_rect(state, msg, RegionOp::Add),
        SUBTRACT => handle_rect(state, msg, RegionOp::Subtract),
        _ => unknown_request(state, msg, "wl_region"),
    }
}

fn handle_rect(state: &mut CompositorState, msg: &WaylandProtocolMessageWithClientInfo, op: RegionOp)
    requires
        old(state).wf(),
    ensures
        final(state).wf(),
        final(state)@ == old(state)@.region_changed(msg@, op),
{
    proof {
        reveal_strlit("wl_region");
    }
    let mut args = ArgReader::new(msg.message.args.as_slice());
    let (x, y, width, height) = (args.i32(), args.i32(), args.i32(), args.i32());
    match (x, y, width, height) {
        (Some(x), Some(y), Some(width), Some(height)) => {
            if let Some(region) = state.regions.get_mut((msg.client_id, msg.message.object_id)) {
                region.rects.push(RegionRect { op, x, y, width, height });
            }
        },
        _ => malformed_request(state, msg, "wl_region"),
    }
}

} // verus!

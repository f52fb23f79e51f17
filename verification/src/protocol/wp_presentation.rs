//! `wp_presentation` protocol handler.
//!
//! Lets clients ask when a surface's content reached the screen.

use crate::client::ObjectType;
use crate::objects::SurfacePendingView;
use crate::protocol::{malformed_request, unknown_request};
use crate::state::{CompositorState, State};
use crate::tree;
use crate::wire::{self, tell1, ArgReader, Request, WaylandProtocolMessageWithClientInfo};
use vstd::prelude::*;

verus! {

// Request opcodes
pub const DESTROY: u16 = 0;

pub const FEEDBACK: u16 = 1;

// Event opcodes
pub const CLOCK_ID: u16 = 0;

/// The clock presentation times are read from: the monotonic one.
pub const CLOCK_MONOTONIC: u32 = 1;

impl State {
    /// The state once a client knows which clock is meant.
    pub open spec fn clock_told(self, client_id: u32, presentation_id: u32) -> Self {
        self.sent(client_id, wire::told1(presentation_id, CLOCK_ID, CLOCK_MONOTONIC))
    }

    /// The state once a client has asked when a surface's next content reaches
    /// the screen.
    pub open spec fn feedback_asked(self, r: Request) -> Self {
        match (r.word(0), r.word(4)) {
            (Some(surface), Some(feedback)) => {
                let s = self.registered(r.client, feedback, ObjectType::WpPresentationFeedback);
                if self.can_register(r.client, feedback) {
                    let p = s.surfaces[(r.client, surface)].pending;
                    s.pending_changed(
                        (r.client, surface),
                        SurfacePendingView {
                            presentation_feedbacks: p.presentation_feedbacks.push(feedback),
                            ..p
                        },
                    )
                } else {
                    s
                }
            },
            _ => self.malformed(r, "wp_presentation"@),
        }
    }

    /// The state once a `wp_presentation` request has been handled.
    pub open spec fn wp_presentation_handled(self, r: Request) -> Self {
        if r.op == DESTROY {
            self.unregistered(r.client, r.object)
        } else if r.op == FEEDBACK {
            self.feedback_asked(r)
        } else {
            self.rejected(r, "wp_presentation"@)
        }
    }
}

pub fn handle(state: &mut CompositorState, msg: &WaylandProtocolMessageWithClientInfo)
    requires
        old(state).wf(),
    ensures
        final(state).wf(),
        final(state)@ == old(state)@.wp_presentation_handled(msg@),
{
    proof {
        reveal_strlit("wp_presentation");
    }
    match msg.message.op_code {
        DESTROY => state.unregister(msg.client_id, msg.message.object_id),
        FEEDBACK => handle_feedback(state, msg),
        _ => unknown_request(state, msg, "wp_presentation"),
    }
}

fn handle_feedback(state: &mut CompositorState, msg: &WaylandProtocolMessageWithClientInfo)
    requires
        old(state).wf(),
    ensures
        final(state).wf(),
        final(state)@ == old(state)@.feedback_asked(msg@),
{
    proof {
        reveal_strlit("wp_presentation");
    }
    let mut args = ArgReader::new(msg.message.args.as_slice());
    let (surface, feedback) = (args.u32(), args.new_id());
    match (surface, feedback) {
        (Some(surface), Some(feedback)) => {
            if !state.register(msg.client_id, feedback, ObjectType::WpPresentationFeedback) {
                return ;
            }
            let ghost before = state@;
            if let Some(surface) = state.surfaces.get_mut((msg.client_id, surface)) {
                surface.pending.presentation_feedbacks.push(feedback);
            }
            assert(tree::surface_links(state@.surfaces) =~= tree::surface_links(before.surfaces));
        },
        _ => malformed_request(state, msg, "wp_presentation"),
    }
}

/// Send `wp_presentation.clock_id` after a client binds.
pub fn send_clock_id(state: &mut CompositorState, client_id: u32, presentation_id: u32)
    requires
        old(state).wf(),
    ensures
        final(state).wf(),
        final(state)@ == old(state)@.clock_told(client_id, presentation_id),
{
    state.send(client_id, tell1(presentation_id, CLOCK_ID, CLOCK_MONOTONIC));
}

} // verus!

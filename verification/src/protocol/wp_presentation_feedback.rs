//! `wp_presentation_feedback` protocol handler.
//!
//! Feedback objects are one-shot: the compositor sends either a `presented`
//! or `discarded` event, then the object is defunct. Clients don't send
//! requests to this interface (no opcodes to handle).

use crate::protocol::unknown_request;
use crate::state::{CompositorState, State};
use crate::wire::{Request, WaylandProtocolMessageWithClientInfo};
use vstd::prelude::*;

verus! {

// Event opcodes
/// `sync_output(output: object<wl_output>)`. Optional, and never sent: it
/// names the output a frame was synchronised to, which this compositor does
/// not track per frame.
pub const SYNC_OUTPUT: u16 = 0;

/// `presented(tv_sec_hi, tv_sec_lo, tv_nsec, refresh, seq_hi, seq_lo, flags)`.
pub const PRESENTED: u16 = 1;

/// `discarded()`, for a frame that never made it to screen.
pub const DISCARDED: u16 = 2;

impl State {
    /// The state once a `wp_presentation_feedback` request has been handled.
    pub open spec fn wp_presentation_feedback_handled(self, r: Request) -> Self {
        self.rejected(r, "wp_presentation_feedback"@)
    }
}

pub fn handle(state: &mut CompositorState, msg: &WaylandProtocolMessageWithClientInfo)
    requires
        old(state).wf(),
    ensures
        final(state).wf(),
        final(state)@ == old(state)@.wp_presentation_feedback_handled(msg@),
{
    proof {
        reveal_strlit("wp_presentation_feedback");
    }
    unknown_request(state, msg, "wp_presentation_feedback");
}

} // verus!

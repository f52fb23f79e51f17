//! `wl_touch` protocol handler.
//!
//! Touch is multi-point: several fingers are down at once and every event names
//! which one it is about. A point belongs to the surface it *started* on for
//! its whole life, so a finger dragged off a window keeps reporting to the
//! client that owns it - which is what makes a swipe that leaves the window
//! still reach the thing being swiped.

use crate::objects::{self, collect_objects, release_object};
use crate::protocol::unknown_request;
use crate::state::{CompositorState, State};
use crate::wire::{self, tell0, tell3, tell4, tell6, Request, WaylandProtocolMessageWithClientInfo};
use vstd::prelude::*;

verus! {

// Request opcodes
pub const RELEASE: u16 = 0;

// Event opcodes
pub const DOWN: u16 = 0;

pub const UP: u16 = 1;

pub const MOTION: u16 = 2;

pub const FRAME: u16 = 3;

pub const CANCEL: u16 = 4;

impl State {
    /// The `wl_touch` objects a client holds.
    pub open spec fn touches_of(self, client_id: u32) -> Seq<u32> {
        objects::objects_of(self.touches, client_id)
    }

    /// The state once a client has been told a finger has landed.
    pub open spec fn touch_down_told(
        self,
        client_id: u32,
        touch_id: u32,
        time_ms: u32,
        surface_id: u32,
        point_id: i32,
        x: i32,
        y: i32,
    ) -> Self {
        let serial = self.next_serial;
        self.ticked().serial_recorded(client_id, serial).sent(
            client_id,
            wire::told6(
                touch_id,
                DOWN,
                serial,
                time_ms,
                surface_id,
                wire::signed_word(point_id),
                wire::signed_word(x),
                wire::signed_word(y),
            ),
        )
    }

    /// The state once a client has been told a finger has been lifted.
    pub open spec fn touch_up_told(
        self,
        client_id: u32,
        touch_id: u32,
        time_ms: u32,
        point_id: i32,
    ) -> Self {
        let serial = self.next_serial;
        self.ticked().serial_recorded(client_id, serial).sent(
            client_id,
            wire::told3(touch_id, UP, serial, time_ms, wire::signed_word(point_id)),
        )
    }

    /// The state once a client has been told a finger has moved.
    pub open spec fn touch_motion_told(
        self,
        client_id: u32,
        touch_id: u32,
        time_ms: u32,
        point_id: i32,
        x: i32,
        y: i32,
    ) -> Self {
        self.sent(
            client_id,
            wire::told4(
                touch_id,
                MOTION,
                time_ms,
                wire::signed_word(point_id),
                wire::signed_word(x),
                wire::signed_word(y),
            ),
        )
    }

    /// The state once a client has been told that a set of touch events is
    /// complete.
    pub open spec fn touch_framed(self, client_id: u32, touch_id: u32) -> Self {
        self.sent(client_id, wire::told0(touch_id, FRAME))
    }

    /// The state once a client has been told that its touches are void.
    pub open spec fn touch_cancel_told(self, client_id: u32, touch_id: u32) -> Self {
        self.sent(client_id, wire::told0(touch_id, CANCEL))
    }

    /// The state once a `wl_touch` request has been handled.
    pub open spec fn wl_touch_handled(self, r: Request) -> Self {
        if r.op == RELEASE {
            State {
                touches: self.touches.filter(objects::not_bound(r.client, r.object)),
                ..self
            }.unregistered(r.client, r.object)
        } else {
            self.rejected(r, "wl_touch"@)
        }
    }
}

pub fn handle(state: &mut CompositorState, msg: &WaylandProtocolMessageWithClientInfo)
    requires
        old(state).wf(),
    ensures
        final(state).wf(),
        final(state)@ == old(state)@.wl_touch_handled(msg@),
{
    proof {
        reveal_strlit("wl_touch");
    }
    let touch_id: u32 = msg.message.object_id;
    match msg.message.op_code {
        RELEASE => {
            release_object(&mut state.touches, msg.client_id, touch_id);
            state.unregister(msg.client_id, touch_id);
        },
        _ => unknown_request(state, msg, "wl_touch"),
    }
}

/// Every `wl_touch` object a client holds.
pub fn touches_of(state: &CompositorState, client_id: u32) -> (r: Vec<u32>)
    ensures
        r@ == state@.touches_of(client_id),
{
    collect_objects(&state.touches, client_id)
}

/// Send `wl_touch.down`: a finger has landed on a surface.
///
/// Wide, because a touch down genuinely carries this much: which finger, when,
/// where, and on what. Bundling them into a struct would only move the same
/// fields somewhere else.
pub fn send_down(
    state: &mut CompositorState,
    client_id: u32,
    touch_id: u32,
    time_ms: u32,
    surface_id: u32,
    point_id: i32,
    x: i32,
    y: i32,
)
    requires
        old(state).wf(),
    ensures
        final(state).wf(),
        final(state)@ == old(state)@.touch_down_told(
            client_id,
            touch_id,
            time_ms,
            surface_id,
            point_id,
            x,
            y,
        ),
{
    let serial: u32 = state.next_serial();
    state.record_input_serial(client_id, serial);
    state.send(
        client_id,
        tell6(touch_id, DOWN, serial, time_ms, surface_id, point_id as u32, x as u32, y as u32),
    );
}

/// Send `wl_touch.up`: a finger has been lifted.
pub fn send_up(
    state: &mut CompositorState,
    client_id: u32,
    touch_id: u32,
    time_ms: u32,
    point_id: i32,
)
    requires
        old(state).wf(),
    ensures
        final(state).wf(),
        final(state)@ == old(state)@.touch_up_told(client_id, touch_id, time_ms, point_id),
{
    let serial: u32 = state.next_serial();
    state.record_input_serial(client_id, serial);
    state.send(client_id, tell3(touch_id, UP, serial, time_ms, point_id as u32));
}

/// Send `wl_touch.motion`: a finger already down has moved.
pub fn send_motion(
    state: &mut CompositorState,
    client_id: u32,
    touch_id: u32,
    time_ms: u32,
    point_id: i32,
    x: i32,
    y: i32,
)
    requires
        old(state).wf(),
    ensures
        final(state).wf(),
        final(state)@ == old(state)@.touch_motion_told(
            client_id,
            touch_id,
            time_ms,
            point_id,
            x,
            y,
        ),
{
    state.send(
        client_id,
        tell4(touch_id, MOTION, time_ms, point_id as u32, x as u32, y as u32),
    );
}

/// Send `wl_touch.frame`: the end of a set of touch events that belong together.
///
/// Several fingers moving at once arrive as separate events, and a client that
/// acted on each in turn would see states that never existed - two fingers
/// mid-pinch, one moved and one not. The frame is what says the picture is now
/// consistent.
pub fn send_frame(state: &mut CompositorState, client_id: u32, touch_id: u32)
    requires
        old(state).wf(),
    ensures
        final(state).wf(),
        final(state)@ == old(state)@.touch_framed(client_id, touch_id),
{
    state.send(client_id, tell0(touch_id, FRAME));
}

/// Send `wl_touch.cancel`: the whole sequence is void.
///
/// Not the same as every finger lifting. A client that receives this must undo
/// what the gesture was doing rather than complete it, because something else
/// - a gesture recogniser, or the compositor - has taken the sequence over.
pub fn send_cancel(state: &mut CompositorState, client_id: u32, touch_id: u32)
    requires
        old(state).wf(),
    ensures
        final(state).wf(),
        final(state)@ == old(state)@.touch_cancel_told(client_id, touch_id),
{
    state.send(client_id, tell0(touch_id, CANCEL));
}

} // verus!

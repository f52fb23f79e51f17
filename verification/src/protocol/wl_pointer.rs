//! `wl_pointer` protocol handler.
//!
//! Delivers pointer (mouse) events to focused clients: enter, leave,
//! motion, button, and axis (scroll) events.

use crate::objects::{self, collect_objects, release_object};
use crate::protocol::{malformed_request, unknown_request};
use crate::shared::ScrollSource;
use crate::state::{CompositorState, CursorChoice, State};
use crate::wire::{
    self, tell0, tell1, tell2, tell3, tell4, ArgReader, Request, WaylandProtocolMessageWithClientInfo,
};
use vstd::prelude::*;

verus! {

// Request opcodes
pub const SET_CURSOR: u16 = 0;

pub const RELEASE: u16 = 1;

// Event opcodes
pub const ENTER: u16 = 0;

pub const LEAVE: u16 = 1;

pub const MOTION: u16 = 2;

pub const BUTTON: u16 = 3;

pub const AXIS: u16 = 4;

pub const FRAME: u16 = 5;

pub const AXIS_SOURCE: u16 = 6;

pub const AXIS_STOP: u16 = 7;

pub const AXIS_DISCRETE: u16 = 8;

pub const AXIS_VALUE120: u16 = 9;

/// `wl_pointer.axis` values.
pub const AXIS_VERTICAL: u32 = 0;

pub const AXIS_HORIZONTAL: u32 = 1;

/// `wl_pointer.axis_source` values.
pub const AXIS_SOURCE_WHEEL: u32 = 0;

pub const AXIS_SOURCE_FINGER: u32 = 1;

/// The version at which `frame` and the axis detail events appear.
pub const AXIS_DETAIL_SINCE: u32 = 5;

/// The version at which `axis_value120` replaces `axis_discrete`.
pub const AXIS_VALUE120_SINCE: u32 = 8;

/// How many whole detents some 120ths of one come to, rounded toward zero.
pub open spec fn detents(v120: int) -> int {
    if v120 >= 0 {
        v120 / 120
    } else {
        -((-v120) / 120)
    }
}

impl State {
    /// The `wl_pointer` objects a client holds.
    pub open spec fn pointers_of(self, client_id: u32) -> Seq<u32> {
        objects::objects_of(self.pointers, client_id)
    }

    /// The state once a pointer has been told it is on a surface, at a point in
    /// 256ths of a pixel.
    pub open spec fn pointer_entered(
        self,
        client_id: u32,
        pointer_id: u32,
        surface_id: u32,
        x: i32,
        y: i32,
    ) -> Self {
        let serial = self.next_serial;
        let s = self.ticked();
        let s = State {
            pointer_enter_serial: s.pointer_enter_serial.insert(client_id, serial),
            ..s
        };
        s.serial_recorded(client_id, serial).sent(
            client_id,
            wire::told4(
                pointer_id,
                ENTER,
                serial,
                surface_id,
                wire::signed_word(x),
                wire::signed_word(y),
            ),
        )
    }

    /// The state once a pointer has been told it left a surface.
    pub open spec fn pointer_left(self, client_id: u32, pointer_id: u32, surface_id: u32) -> Self {
        self.ticked().sent(
            client_id,
            wire::told2(pointer_id, LEAVE, self.next_serial, surface_id),
        )
    }

    /// The state once a pointer has been told where it is.
    pub open spec fn pointer_moved(
        self,
        client_id: u32,
        pointer_id: u32,
        time_ms: u32,
        x: i32,
        y: i32,
    ) -> Self {
        self.sent(
            client_id,
            wire::told3(pointer_id, MOTION, time_ms, wire::signed_word(x), wire::signed_word(y)),
        )
    }

    /// The state once a pointer has been told of a button.
    pub open spec fn pointer_clicked(
        self,
        client_id: u32,
        pointer_id: u32,
        time_ms: u32,
        button: u32,
        pressed: bool,
    ) -> Self {
        let serial = self.next_serial;
        self.ticked().serial_recorded(client_id, serial).sent(
            client_id,
            wire::told4(
                pointer_id,
                BUTTON,
                serial,
                time_ms,
                button,
                if pressed {
                    1
                } else {
                    0
                },
            ),
        )
    }

    /// The state once a pointer has been told of a scroll.
    pub open spec fn pointer_scrolled(
        self,
        client_id: u32,
        pointer_id: u32,
        time_ms: u32,
        axis: u32,
        value: i32,
    ) -> Self {
        self.sent(
            client_id,
            wire::told3(pointer_id, AXIS, time_ms, axis, wire::signed_word(value)),
        )
    }

    /// The state once a pointer has been told that a group of events is over.
    pub open spec fn pointer_framed(self, client_id: u32, pointer_id: u32) -> Self {
        if self.speaks(client_id, pointer_id, AXIS_DETAIL_SINCE) {
            self.sent(client_id, wire::told0(pointer_id, FRAME))
        } else {
            self
        }
    }

    /// The state once a pointer has been told what did the scrolling.
    pub open spec fn pointer_scroll_sourced(
        self,
        client_id: u32,
        pointer_id: u32,
        source: ScrollSource,
    ) -> Self {
        if self.speaks(client_id, pointer_id, AXIS_DETAIL_SINCE) {
            self.sent(
                client_id,
                wire::told1(
                    pointer_id,
                    AXIS_SOURCE,
                    match source {
                        ScrollSource::Wheel => AXIS_SOURCE_WHEEL,
                        ScrollSource::Finger => AXIS_SOURCE_FINGER,
                    },
                ),
            )
        } else {
            self
        }
    }

    /// The state once a pointer has been told that a scroll is over.
    pub open spec fn pointer_scroll_stopped(
        self,
        client_id: u32,
        pointer_id: u32,
        time_ms: u32,
        axis: u32,
    ) -> Self {
        if self.speaks(client_id, pointer_id, AXIS_DETAIL_SINCE) {
            self.sent(client_id, wire::told2(pointer_id, AXIS_STOP, time_ms, axis))
        } else {
            self
        }
    }

    /// The state once a pointer has been told how far a wheel clicked.
    pub open spec fn pointer_stepped(
        self,
        client_id: u32,
        pointer_id: u32,
        axis: u32,
        v120: i32,
    ) -> Self {
        if v120 == 0 {
            self
        } else if self.speaks(client_id, pointer_id, AXIS_VALUE120_SINCE) {
            self.sent(
                client_id,
                wire::told2(pointer_id, AXIS_VALUE120, axis, wire::signed_word(v120)),
            )
        } else if self.speaks(client_id, pointer_id, AXIS_DETAIL_SINCE) {
            self.sent(
                client_id,
                wire::told2(
                    pointer_id,
                    AXIS_DISCRETE,
                    axis,
                    wire::signed_word(detents(v120 as int) as i32),
                ),
            )
        } else {
            self
        }
    }

    /// A surface has a role that keeps it from being a cursor.
    pub open spec fn has_other_role(self, surface: (u32, u32)) -> bool {
        ||| self.surfaces[surface].parent is Some
        ||| self.is_xdg(surface)
        ||| self.dnd_icon_surfaces.contains(surface)
    }

    /// The state once a client has asked for a cursor.
    pub open spec fn cursor_set(self, r: Request) -> Self {
        match (r.word(0), r.word(4), r.signed(8), r.signed(12)) {
            (Some(serial), Some(surface_id), Some(hotspot_x), Some(hotspot_y)) => {
                let surface = (r.client, surface_id);
                if !(self.pointer_enter_serial.contains_key(r.client)
                    && self.pointer_enter_serial[r.client] == serial) {
                    self
                } else if surface_id == 0 {
                    State {
                        cursor_surfaces: self.cursor_surfaces.insert(
                            r.client,
                            CursorChoice::Hidden,
                        ),
                        ..self
                    }.dirtied()
                } else if !self.surfaces.contains_key(surface) || self.has_other_role(surface) {
                    self
                } else {
                    State {
                        cursor_role_surfaces: self.cursor_role_surfaces.insert(surface),
                        cursor_surfaces: self.cursor_surfaces.insert(
                            r.client,
                            CursorChoice::Shown { surface_id, hotspot_x, hotspot_y },
                        ),
                        ..self
                    }.dirtied()
                }
            },
            _ => self.malformed(r, "wl_pointer"@),
        }
    }

    /// The state once a `wl_pointer` request has been handled.
    pub open spec fn wl_pointer_handled(self, r: Request) -> Self {
        if r.op == SET_CURSOR {
            self.cursor_set(r)
        } else if r.op == RELEASE {
            State {
                pointers: self.pointers.filter(objects::not_bound(r.client, r.object)),
                ..self
            }.unregistered(r.client, r.object)
        } else {
            self.rejected(r, "wl_pointer"@)
        }
    }
}

/// The `wl_pointer` objects a client holds.
pub fn pointers_of(state: &CompositorState, client_id: u32) -> (r: Vec<u32>)
    ensures
        r@ == state@.pointers_of(client_id),
{
    collect_objects(&state.pointers, client_id)
}

pub fn handle(state: &mut CompositorState, msg: &WaylandProtocolMessageWithClientInfo)
    requires
        old(state).wf(),
    ensures
        final(state).wf(),
        final(state)@ == old(state)@.wl_pointer_handled(msg@),
{
    proof {
        reveal_strlit("wl_pointer");
    }
    let pointer_id: u32 = msg.message.object_id;
    match msg.message.op_code {
        SET_CURSOR => process_set_cursor(state, msg),
        RELEASE => {
            release_object(&mut state.pointers, msg.client_id, pointer_id);
            state.unregister(msg.client_id, pointer_id);
        },
        _ => unknown_request(state, msg, "wl_pointer"),
    }
}

fn process_set_cursor(state: &mut CompositorState, msg: &WaylandProtocolMessageWithClientInfo)
    requires
        old(state).wf(),
    ensures
        final(state).wf(),
        final(state)@ == old(state)@.cursor_set(msg@),
{
    proof {
        reveal_strlit("wl_pointer");
    }
    let mut args = ArgReader::new(msg.message.args.as_slice());
    let (a, b, c, d) = (args.u32(), args.u32(), args.i32(), args.i32());
    let (serial, surface_id, hotspot_x, hotspot_y): (u32, u32, i32, i32) = match (a, b, c, d) {
        (Some(a), Some(b), Some(c), Some(d)) => (a, b, c, d),
        _ => {
            malformed_request(state, msg, "wl_pointer");
            return ;
        },
    };
    let client_id: u32 = msg.client_id;

    // Validate serial matches the most recent enter serial for this client.
    let current = match state.pointer_enter_serial.get(client_id) {
        Some(entered) => *entered == serial,
        None => false,
    };
    if !current {
        return ;
    }
    // A null surface hides the cursor.
    if surface_id == 0 {
        state.cursor_surfaces.insert(client_id, CursorChoice::Hidden);
        state.dirty = true;
        return ;
    }
    let surface_key = (client_id, surface_id);
    // Role check: surface must not already have another role (subsurface,
    // xdg_surface, or drag icon).
    let is_subsurface = match state.surfaces.get(surface_key) {
        Some(surface) => surface.parent.is_some(),
        None => {
            return ;
        },
    };
    if is_subsurface || state.is_xdg(surface_key) || state.dnd_icon_surfaces.contains(surface_key) {
        return ;
    }
    // Assign cursor role (permanent).
    state.cursor_role_surfaces.insert(surface_key);
    state.cursor_surfaces.insert(
        client_id,
        CursorChoice::Shown { surface_id, hotspot_x, hotspot_y },
    );
    state.dirty = true;
}

/// Send `wl_pointer.enter` to a client's pointer object.
pub fn send_enter(
    state: &mut CompositorState,
    client_id: u32,
    pointer_id: u32,
    surface_id: u32,
    x: i32,
    y: i32,
)
    requires
        old(state).wf(),
    ensures
        final(state).wf(),
        final(state)@ == old(state)@.pointer_entered(client_id, pointer_id, surface_id, x, y),
{
    let serial: u32 = state.next_serial();
    state.pointer_enter_serial.insert(client_id, serial);
    state.record_input_serial(client_id, serial);
    state.send(client_id, tell4(pointer_id, ENTER, serial, surface_id, x as u32, y as u32));
}

/// Send `wl_pointer.leave` to a client's pointer object.
pub fn send_leave(state: &mut CompositorState, client_id: u32, pointer_id: u32, surface_id: u32)
    requires
        old(state).wf(),
    ensures
        final(state).wf(),
        final(state)@ == old(state)@.pointer_left(client_id, pointer_id, surface_id),
{
    let serial: u32 = state.next_serial();
    state.send(client_id, tell2(pointer_id, LEAVE, serial, surface_id));
}

/// Send `wl_pointer.motion` to a client's pointer object.
pub fn send_motion(
    state: &mut CompositorState,
    client_id: u32,
    pointer_id: u32,
    time_ms: u32,
    x: i32,
    y: i32,
)
    requires
        old(state).wf(),
    ensures
        final(state).wf(),
        final(state)@ == old(state)@.pointer_moved(client_id, pointer_id, time_ms, x, y),
{
    state.send(client_id, tell3(pointer_id, MOTION, time_ms, x as u32, y as u32));
}

/// Send `wl_pointer.button` to a client's pointer object.
///
/// Returns the serial, which the compositor records so a client can quote it
/// when asking to start an interactive move or resize. It is recorded on
/// release as well as press: a client may set the selection on button-up, and
/// quoting the serial of the event it is handling is exactly what it is
/// supposed to do.
pub fn send_button(
    state: &mut CompositorState,
    client_id: u32,
    pointer_id: u32,
    time_ms: u32,
    button: u32,
    pressed: bool,
) -> (r: u32)
    requires
        old(state).wf(),
    ensures
        final(state).wf(),
        final(state)@ == old(state)@.pointer_clicked(
            client_id,
            pointer_id,
            time_ms,
            button,
            pressed,
        ),
        r == old(state)@.next_serial,
{
    let serial: u32 = state.next_serial();
    state.record_input_serial(client_id, serial);
    let button_state: u32 = if pressed { 1 } else { 0 };
    state.send(client_id, tell4(pointer_id, BUTTON, serial, time_ms, button, button_state));
    serial
}

/// Send `wl_pointer.axis` to a client's pointer object.
pub fn send_axis(
    state: &mut CompositorState,
    client_id: u32,
    pointer_id: u32,
    time_ms: u32,
    axis: u32,
    value: i32,
)
    requires
        old(state).wf(),
    ensures
        final(state).wf(),
        final(state)@ == old(state)@.pointer_scrolled(client_id, pointer_id, time_ms, axis, value),
{
    state.send(client_id, tell3(pointer_id, AXIS, time_ms, axis, value as u32));
}

/// Send `wl_pointer.frame` to indicate end of a group of events (version 5+).
pub fn send_frame(state: &mut CompositorState, client_id: u32, pointer_id: u32)
    requires
        old(state).wf(),
    ensures
        final(state).wf(),
        final(state)@ == old(state)@.pointer_framed(client_id, pointer_id),
{
    if state.speaks(client_id, pointer_id, AXIS_DETAIL_SINCE) {
        state.send(client_id, tell0(pointer_id, FRAME));
    }
}

/// Send `wl_pointer.axis_source`, saying what did the scrolling.
///
/// Goes out once per frame, before the axis events it describes. A client uses
/// it to decide whether the scroll can have momentum: a wheel clicks and stops,
/// a touchpad glides and is let go of.
pub fn send_axis_source(
    state: &mut CompositorState,
    client_id: u32,
    pointer_id: u32,
    source: ScrollSource,
)
    requires
        old(state).wf(),
    ensures
        final(state).wf(),
        final(state)@ == old(state)@.pointer_scroll_sourced(client_id, pointer_id, source),
{
    let value: u32 = match source {
        ScrollSource::Wheel => AXIS_SOURCE_WHEEL,
        ScrollSource::Finger => AXIS_SOURCE_FINGER,
    };
    if state.speaks(client_id, pointer_id, AXIS_DETAIL_SINCE) {
        state.send(client_id, tell1(pointer_id, AXIS_SOURCE, value));
    }
}

/// Send `wl_pointer.axis_stop`: this axis has stopped scrolling.
///
/// Only meaningful for a source that can stop. A client cannot tell a scroll
/// that has paused from one that has ended by watching the deltas, and kinetic
/// scrolling turns on exactly that difference.
pub fn send_axis_stop(
    state: &mut CompositorState,
    client_id: u32,
    pointer_id: u32,
    time_ms: u32,
    axis: u32,
)
    requires
        old(state).wf(),
    ensures
        final(state).wf(),
        final(state)@ == old(state)@.pointer_scroll_stopped(client_id, pointer_id, time_ms, axis),
{
    if state.speaks(client_id, pointer_id, AXIS_DETAIL_SINCE) {
        state.send(client_id, tell2(pointer_id, AXIS_STOP, time_ms, axis));
    }
}

/// Tell a client how far a wheel clicked, in whichever unit its version speaks.
///
/// The two events are alternatives, not companions: version 8 replaced
/// `axis_discrete` with `axis_value120`, and sending both would have a client
/// that understands the newer one count every detent twice. So the version
/// decides which goes out, and exactly one does.
///
/// `v120` is 120ths of a detent, which is what lets a high-resolution wheel
/// report a fraction of a click without a separate event for it. An older
/// client is sent whole detents, and a movement smaller than one rounds to
/// nothing - which is the best that unit can say.
pub fn send_axis_steps(
    state: &mut CompositorState,
    client_id: u32,
    pointer_id: u32,
    axis: u32,
    v120: i32,
)
    requires
        old(state).wf(),
    ensures
        final(state).wf(),
        final(state)@ == old(state)@.pointer_stepped(client_id, pointer_id, axis, v120),
{
    if v120 == 0 {
        return ;
    }
    if state.speaks(client_id, pointer_id, AXIS_VALUE120_SINCE) {
        state.send(client_id, tell2(pointer_id, AXIS_VALUE120, axis, v120 as u32));
    } else if state.speaks(client_id, pointer_id, AXIS_DETAIL_SINCE) {
        let v: i64 = v120 as i64;
        let whole: i64 = if v >= 0 { v / 120 } else { -((-v) / 120) };
        let whole: i32 = whole as i32;
        state.send(client_id, tell2(pointer_id, AXIS_DISCRETE, axis, whole as u32));
    }
}

} // verus!

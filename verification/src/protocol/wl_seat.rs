//! `wl_seat` protocol handler.
//!
//! A seat represents a group of input devices (pointer, keyboard, touch).
//! Clients bind `wl_seat` to receive capability events, then request specific
//! input device objects (`wl_pointer`, `wl_keyboard`, `wl_touch`).

use crate::client::{self, ObjectType};
use crate::objects::{KeyboardBinding, PointerBinding, SeatState, TouchBinding};
use crate::protocol::{unknown_request, wl_keyboard};
use crate::state::{self, CompositorState, State};
use crate::text;
use crate::wire::{
    self, build_message, tell1, ArgReader, ArgWriter, Request, WaylandProtocolMessageWithClientInfo,
};
use crate::workspace::ClientObjectId;
use vstd::prelude::*;

verus! {

// Request opcodes
pub const GET_POINTER: u16 = 0;

pub const GET_KEYBOARD: u16 = 1;

pub const GET_TOUCH: u16 = 2;

pub const RELEASE: u16 = 3;

// Event opcodes
pub const CAPABILITIES: u16 = 0;

pub const NAME: u16 = 1;

// Capability flags
pub const CAP_POINTER: u32 = 1;

pub const CAP_KEYBOARD: u32 = 2;

pub const CAP_TOUCH: u32 = 4;

impl SeatState {
    /// What the seat can do, as flags.
    pub open spec fn flags(self) -> u32 {
        ((if self.has_pointer {
            CAP_POINTER as int
        } else {
            0
        }) + (if self.has_keyboard {
            CAP_KEYBOARD as int
        } else {
            0
        }) + (if self.has_touch {
            CAP_TOUCH as int
        } else {
            0
        })) as u32
    }
}

/// Tell one seat what it can do.
pub open spec fn telling_seat() -> spec_fn(State, ClientObjectId) -> State {
    |s: State, key: ClientObjectId| s.seat_told(key.0, key.1)
}

impl State {
    /// The state once a client has a `wl_pointer`.
    pub open spec fn pointer_asked(self, r: Request) -> Self {
        match r.word(0) {
            Some(id) => {
                let s = self.registered_as(r, id, ObjectType::WlPointer);
                if self.can_register(r.client, id) {
                    State {
                        pointers: s.pointers.push(PointerBinding { client_id: r.client, object_id: id }),
                        ..s
                    }
                } else {
                    s
                }
            },
            None => self.errored(r.client, r.object, 0, "wl_seat.get_pointer: malformed args"@),
        }
    }

    /// The state once a client has a `wl_keyboard`.
    pub open spec fn keyboard_asked(self, r: Request) -> Self {
        match r.word(0) {
            Some(id) => {
                let s = self.registered_as(r, id, ObjectType::WlKeyboard);
                if self.can_register(r.client, id) {
                    State {
                        keyboards: s.keyboards.push(KeyboardBinding { client_id: r.client, object_id: id }),
                        ..s
                    }.keymap_sent(r.client, id)
                } else {
                    s
                }
            },
            None => self.errored(r.client, r.object, 0, "wl_seat.get_keyboard: malformed args"@),
        }
    }

    /// The state once a client has a `wl_touch`.
    pub open spec fn touch_asked(self, r: Request) -> Self {
        match r.word(0) {
            Some(id) => {
                let s = self.registered_as(r, id, ObjectType::WlTouch);
                if self.can_register(r.client, id) {
                    State {
                        touches: s.touches.push(TouchBinding { client_id: r.client, object_id: id }),
                        ..s
                    }
                } else {
                    s
                }
            },
            None => self.errored(r.client, r.object, 0, "wl_seat.get_touch: malformed args"@),
        }
    }

    /// The state once a client knows what the seat can do and what it is called.
    pub open spec fn seat_told(self, client_id: u32, seat_id: u32) -> Self {
        self.sent(client_id, wire::told1(seat_id, CAPABILITIES, self.seat.flags())).sent(
            client_id,
            wire::event(seat_id, NAME, Seq::empty() + wire::string_bytes("default"@)),
        )
    }

    /// The state once every client that has the seat knows what it can do.
    pub open spec fn capabilities_broadcast(self) -> Self {
        state::each(self, client::holders(self.clients, ObjectType::WlSeat), telling_seat())
    }

    /// The state once a `wl_seat` request has been handled.
    pub open spec fn wl_seat_handled(self, r: Request) -> Self {
        if r.op == GET_POINTER {
            self.pointer_asked(r)
        } else if r.op == GET_KEYBOARD {
            self.keyboard_asked(r)
        } else if r.op == GET_TOUCH {
            self.touch_asked(r)
        } else if r.op == RELEASE {
            self.unregistered(r.client, r.object)
        } else {
            self.rejected(r, "wl_seat"@)
        }
    }
}

pub fn handle(state: &mut CompositorState, msg: &WaylandProtocolMessageWithClientInfo)
    requires
        old(state).wf(),
    ensures
        final(state).wf(),
        final(state)@ == old(state)@.wl_seat_handled(msg@),
{
    proof {
        reveal_strlit("wl_seat");
    }
    match msg.message.op_code {
        GET_POINTER => handle_get_pointer(state, msg),
        GET_KEYBOARD => handle_get_keyboard(state, msg),
        GET_TOUCH => handle_get_touch(state, msg),
        RELEASE => state.unregister(msg.client_id, msg.message.object_id),
        _ => unknown_request(state, msg, "wl_seat"),
    }
}

fn handle_get_pointer(state: &mut CompositorState, msg: &WaylandProtocolMessageWithClientInfo)
    requires
        old(state).wf(),
    ensures
        final(state).wf(),
        final(state)@ == old(state)@.pointer_asked(msg@),
{
    let mut args = ArgReader::new(msg.message.args.as_slice());
    match args.new_id() {
        Some(id) => {
            if state.register_as(msg, id, ObjectType::WlPointer) {
                state.pointers.push(PointerBinding { client_id: msg.client_id, object_id: id });
            }
        },
        None => {
            proof {
                reveal_strlit("wl_seat.get_pointer: malformed args");
            }
            state.fail(msg.client_id, msg.message.object_id, 0, "wl_seat.get_pointer: malformed args");
        },
    }
}

/// Hand out a `wl_touch`, whether or not there is a touchscreen.
///
/// The seat says in its capabilities whether there is one - but the client
/// names the id here, so the object has to be registered either way. Dropping
/// the request instead leaves the client holding an id the compositor does not
/// know, and its eventual `release` would disconnect it.
fn handle_get_touch(state: &mut CompositorState, msg: &WaylandProtocolMessageWithClientInfo)
    requires
        old(state).wf(),
    ensures
        final(state).wf(),
        final(state)@ == old(state)@.touch_asked(msg@),
{
    let mut args = ArgReader::new(msg.message.args.as_slice());
    match args.new_id() {
        Some(id) => {
            if state.register_as(msg, id, ObjectType::WlTouch) {
                state.touches.push(TouchBinding { client_id: msg.client_id, object_id: id });
            }
        },
        None => {
            proof {
                reveal_strlit("wl_seat.get_touch: malformed args");
            }
            state.fail(msg.client_id, msg.message.object_id, 0, "wl_seat.get_touch: malformed args");
        },
    }
}

fn handle_get_keyboard(state: &mut CompositorState, msg: &WaylandProtocolMessageWithClientInfo)
    requires
        old(state).wf(),
    ensures
        final(state).wf(),
        final(state)@ == old(state)@.keyboard_asked(msg@),
{
    let mut args = ArgReader::new(msg.message.args.as_slice());
    match args.new_id() {
        Some(id) => {
            if state.register_as(msg, id, ObjectType::WlKeyboard) {
                state.keyboards.push(KeyboardBinding { client_id: msg.client_id, object_id: id });
                // Required before any key events
                wl_keyboard::send_keymap(state, msg.client_id, id);
            }
        },
        None => {
            proof {
                reveal_strlit("wl_seat.get_keyboard: malformed args");
            }
            state.fail(msg.client_id, msg.message.object_id, 0, "wl_seat.get_keyboard: malformed args");
        },
    }
}

/// What the seat can do, as flags.
fn capability_flags(seat: SeatState) -> (r: u32)
    ensures
        r == seat.flags(),
{
    let mut flags: u32 = 0;
    if seat.has_pointer {
        flags = flags + CAP_POINTER;
    }
    if seat.has_keyboard {
        flags = flags + CAP_KEYBOARD;
    }
    if seat.has_touch {
        flags = flags + CAP_TOUCH;
    }
    flags
}

/// Send `wl_seat.capabilities` and `wl_seat.name` after a client binds.
pub fn send_seat_info(state: &mut CompositorState, client_id: u32, seat_id: u32)
    requires
        old(state).wf(),
    ensures
        final(state).wf(),
        final(state)@ == old(state)@.seat_told(client_id, seat_id),
{
    let flags: u32 = capability_flags(state.seat);
    state.send(client_id, tell1(seat_id, CAPABILITIES, flags));
    proof {
        reveal_strlit("default");
        text::lemma_encoded_len("default"@);
    }
    let args = ArgWriter::new().string("default").build();
    state.send(client_id, build_message(seat_id, NAME, args));
}

/// Tell every client that has bound the seat what it can now do.
///
/// Capabilities are not fixed for the life of the compositor: a touchscreen is
/// only known to exist once it is touched, and a client that bound the seat
/// before that would otherwise never hear about it.
pub fn broadcast_capabilities(state: &mut CompositorState)
    requires
        old(state).wf(),
    ensures
        final(state).wf(),
        final(state)@ == old(state)@.capabilities_broadcast(),
{
    let seats = state.clients.holders_of(ObjectType::WlSeat);
    let ghost start = state@;
    let mut i: usize = 0;
    proof {
        state::lemma_each_ends(start, seats@, telling_seat());
    }
    while i < seats.len()
        invariant
            state.wf(),
            i <= seats@.len(),
            state@ == state::each(start, seats@.take(i as int), telling_seat()),
        decreases seats@.len() - i,
    {
        proof {
            state::lemma_each_step(start, seats@, telling_seat(), i as int);
        }
        let (client_id, seat_id): (u32, u32) = seats[i];
        send_seat_info(state, client_id, seat_id);
        i = i + 1;
    }
}

} // verus!

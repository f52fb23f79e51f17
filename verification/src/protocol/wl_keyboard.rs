//! `wl_keyboard` protocol handler.
//!
//! Delivers keyboard events to focused clients: keymap, enter, leave,
//! key, and modifiers events.

use crate::objects::{self, collect_objects, release_object};
use crate::protocol::unknown_request;
use crate::state::{CompositorState, State};
use crate::table;
use crate::wire::{
    self, build_message, build_message_with_fds, tell2, tell4, tell5, ArgWriter, Fd, Message,
    Request, WaylandProtocolMessageWithClientInfo,
};
use vstd::prelude::*;

verus! {

// Request opcodes
pub const RELEASE: u16 = 0;

// Event opcodes
pub const KEYMAP: u16 = 0;

pub const ENTER: u16 = 1;

pub const LEAVE: u16 = 2;

pub const KEY: u16 = 3;

pub const MODIFIERS: u16 = 4;

pub const REPEAT_INFO: u16 = 5;

/// Keymap format: xkb, as text.
pub const KEYMAP_FORMAT_XKB_V1: u32 = 1;

/// The version at which `repeat_info` appears.
pub const REPEAT_INFO_SINCE: u32 = 4;

/// Keys per second once a held key repeats.
pub const REPEAT_RATE: u32 = 25;

/// Milliseconds before a held key repeats.
pub const REPEAT_DELAY: u32 = 600;

/// The most keys there is room for in an array on the wire.
pub const MOST_HELD_KEYS: usize = 0x3fff_ffff;

/// The keys a client is told are held.
pub open spec fn told_keys(pressed: Set<u32>) -> Seq<u32> {
    let keys = table::ordered(pressed);
    if keys.len() <= MOST_HELD_KEYS {
        keys
    } else {
        keys.take(MOST_HELD_KEYS as int)
    }
}

impl State {
    /// The `wl_keyboard` objects a client holds.
    pub open spec fn keyboards_of(self, client_id: u32) -> Seq<u32> {
        objects::objects_of(self.keyboards, client_id)
    }

    /// The state once a keyboard has been given the layout, if there is one.
    /// The repeat rate follows a layout that went out.
    pub open spec fn keymap_sent(self, client_id: u32, keyboard_id: u32) -> Self {
        match self.keymap {
            Some(keymap) if self.knows(client_id) => {
                let s = self.sent(
                    client_id,
                    Message {
                        object_id: keyboard_id,
                        op_code: KEYMAP,
                        args: Seq::empty() + wire::le_bytes(KEYMAP_FORMAT_XKB_V1) + wire::le_bytes(
                            keymap.size,
                        ),
                        fds: Seq::empty().push(keymap.fd),
                    },
                );
                if self.clients[client_id].takes() && s.speaks(
                    client_id,
                    keyboard_id,
                    REPEAT_INFO_SINCE,
                ) {
                    s.sent(
                        client_id,
                        wire::told2(keyboard_id, REPEAT_INFO, REPEAT_RATE, REPEAT_DELAY),
                    )
                } else {
                    s
                }
            },
            _ => self,
        }
    }

    /// The state once a keyboard has been told it is on a surface, and which
    /// keys are held.
    pub open spec fn keyboard_entered(
        self,
        client_id: u32,
        keyboard_id: u32,
        surface_id: u32,
    ) -> Self {
        let serial = self.next_serial;
        self.ticked().serial_recorded(client_id, serial).sent(
            client_id,
            wire::event(
                keyboard_id,
                ENTER,
                Seq::empty() + wire::le_bytes(serial) + wire::le_bytes(surface_id)
                    + wire::array_bytes(told_keys(self.pressed_keys)),
            ),
        )
    }

    /// The state once a keyboard has been told it left a surface.
    pub open spec fn keyboard_left(self, client_id: u32, keyboard_id: u32, surface_id: u32) -> Self {
        self.ticked().sent(
            client_id,
            wire::told2(keyboard_id, LEAVE, self.next_serial, surface_id),
        )
    }

    /// The state once a keyboard has been told of a key.
    pub open spec fn key_told(
        self,
        client_id: u32,
        keyboard_id: u32,
        time_ms: u32,
        key: u32,
        pressed: bool,
    ) -> Self {
        let serial = self.next_serial;
        self.ticked().serial_recorded(client_id, serial).sent(
            client_id,
            wire::told4(
                keyboard_id,
                KEY,
                serial,
                time_ms,
                key,
                if pressed {
                    1
                } else {
                    0
                },
            ),
        )
    }

    /// The state once a keyboard has been told of the modifiers.
    pub open spec fn modifiers_told(
        self,
        client_id: u32,
        keyboard_id: u32,
        depressed: u32,
        latched: u32,
        locked: u32,
        group: u32,
    ) -> Self {
        self.ticked().sent(
            client_id,
            wire::told5(
                keyboard_id,
                MODIFIERS,
                self.next_serial,
                depressed,
                latched,
                locked,
                group,
            ),
        )
    }

    /// The state once a `wl_keyboard` request has been handled.
    pub open spec fn wl_keyboard_handled(self, r: Request) -> Self {
        if r.op == RELEASE {
            State {
                keyboards: self.keyboards.filter(objects::not_bound(r.client, r.object)),
                ..self
            }.unregistered(r.client, r.object)
        } else {
            self.rejected(r, "wl_keyboard"@)
        }
    }
}

/// The `wl_keyboard` objects a client holds.
pub fn keyboards_of(state: &CompositorState, client_id: u32) -> (r: Vec<u32>)
    ensures
        r@ == state@.keyboards_of(client_id),
{
    collect_objects(&state.keyboards, client_id)
}

pub fn handle(state: &mut CompositorState, msg: &WaylandProtocolMessageWithClientInfo)
    requires
        old(state).wf(),
    ensures
        final(state).wf(),
        final(state)@ == old(state)@.wl_keyboard_handled(msg@),
{
    proof {
        reveal_strlit("wl_keyboard");
    }
    let keyboard_id: u32 = msg.message.object_id;
    match msg.message.op_code {
        RELEASE => {
            release_object(&mut state.keyboards, msg.client_id, keyboard_id);
            state.unregister(msg.client_id, keyboard_id);
        },
        _ => unknown_request(state, msg, "wl_keyboard"),
    }
}

/// Send the keyboard layout to a client's keyboard object, as a file.
pub fn send_keymap(state: &mut CompositorState, client_id: u32, keyboard_id: u32)
    requires
        old(state).wf(),
    ensures
        final(state).wf(),
        final(state)@ == old(state)@.keymap_sent(client_id, keyboard_id),
{
    let keymap = match state.keymap {
        Some(keymap) => keymap,
        None => {
            return ;
        },
    };
    let delivered = match state.clients.get(client_id) {
        Some(client) => {
            let args = ArgWriter::new().u32(KEYMAP_FORMAT_XKB_V1).u32(keymap.size).build();
            let mut fds: Vec<Fd> = Vec::new();
            fds.push(keymap.fd);
            client.send(build_message_with_fds(keyboard_id, KEYMAP, args, fds)).is_ok()
        },
        None => {
            return ;
        },
    };
    if delivered && state.speaks(client_id, keyboard_id, REPEAT_INFO_SINCE) {
        state.send(client_id, tell2(keyboard_id, REPEAT_INFO, REPEAT_RATE, REPEAT_DELAY));
    }
}

/// Send `wl_keyboard.enter` to a client's keyboard object.
pub fn send_enter(state: &mut CompositorState, client_id: u32, keyboard_id: u32, surface_id: u32)
    requires
        old(state).wf(),
    ensures
        final(state).wf(),
        final(state)@ == old(state)@.keyboard_entered(client_id, keyboard_id, surface_id),
{
    let mut keys = state.pressed_keys.keys();
    if keys.len() > MOST_HELD_KEYS {
        keys.truncate(MOST_HELD_KEYS);
    }
    assert(keys@ =~= told_keys(state@.pressed_keys));
    let serial: u32 = state.next_serial();
    state.record_input_serial(client_id, serial);
    let args = ArgWriter::new().u32(serial).u32(surface_id).array_u32(keys.as_slice()).build();
    state.send(client_id, build_message(keyboard_id, ENTER, args));
}

/// Send `wl_keyboard.leave` to a client's keyboard object.
pub fn send_leave(state: &mut CompositorState, client_id: u32, keyboard_id: u32, surface_id: u32)
    requires
        old(state).wf(),
    ensures
        final(state).wf(),
        final(state)@ == old(state)@.keyboard_left(client_id, keyboard_id, surface_id),
{
    let serial: u32 = state.next_serial();
    state.send(client_id, tell2(keyboard_id, LEAVE, serial, surface_id));
}

/// Send `wl_keyboard.key` to a client's keyboard object.
pub fn send_key(
    state: &mut CompositorState,
    client_id: u32,
    keyboard_id: u32,
    time_ms: u32,
    key: u32,
    pressed: bool,
)
    requires
        old(state).wf(),
    ensures
        final(state).wf(),
        final(state)@ == old(state)@.key_told(client_id, keyboard_id, time_ms, key, pressed),
{
    let serial: u32 = state.next_serial();
    state.record_input_serial(client_id, serial);
    let key_state: u32 = if pressed { 1 } else { 0 };
    state.send(client_id, tell4(keyboard_id, KEY, serial, time_ms, key, key_state));
}

/// Send `wl_keyboard.modifiers` to a client's keyboard object.
pub fn send_modifiers(
    state: &mut CompositorState,
    client_id: u32,
    keyboard_id: u32,
    mods_depressed: u32,
    mods_latched: u32,
    mods_locked: u32,
    group: u32,
)
    requires
        old(state).wf(),
    ensures
        final(state).wf(),
        final(state)@ == old(state)@.modifiers_told(
            client_id,
            keyboard_id,
            mods_depressed,
            mods_latched,
            mods_locked,
            group,
        ),
{
    let serial: u32 = state.next_serial();
    state.send(
        client_id,
        tell5(keyboard_id, MODIFIERS, serial, mods_depressed, mods_latched, mods_locked, group),
    );
}

} // verus!

//! Request dispatch: what happens to a client that sends something the
//! compositor cannot make sense of.

use way_small::client::{ObjectType, DISPLAY_ERROR, DISPLAY_OBJECT_ID};
use way_small::protocol::{handle_message, Outside};
use way_small::state::CompositorState;
use way_small::wire::{ArgWriter, WaylandProtocolMessage, WaylandProtocolMessageWithClientInfo};

const CLIENT: u32 = 1;
const SURFACE: u32 = 10;
const POSITIONER: u32 = 20;

/// A client with one surface.
fn client_with_a_surface() -> CompositorState {
    let mut state = CompositorState::new();
    state.clients.create(CLIENT, 64);
    state.create_surface(CLIENT, SURFACE);
    state
        .clients
        .get(CLIENT)
        .unwrap()
        .register(SURFACE, ObjectType::WlSurface)
        .unwrap();
    state
}

fn deliver(state: &mut CompositorState, object_id: u32, op_code: u16, args: Vec<u8>) {
    handle_message(
        state,
        &WaylandProtocolMessageWithClientInfo {
            client_id: CLIENT,
            message: WaylandProtocolMessage {
                object_id,
                op_code,
                args,
                fds: Vec::new(),
            },
        },
        Outside { mapped: false, plane_size: 0, backend_ready: false },
    );
}

/// Whether the client was sent a `wl_display.error`.
fn was_sent_an_error(state: &mut CompositorState) -> bool {
    state
        .clients
        .get(CLIENT)
        .unwrap()
        .take_outbox()
        .iter()
        .any(|m| m.object_id == DISPLAY_OBJECT_ID && m.op_code == DISPLAY_ERROR)
}

fn is_cancelled(state: &mut CompositorState) -> bool {
    state.clients.get(CLIENT).unwrap().cancelled
}

#[test]
fn an_opcode_the_interface_does_not_have_disconnects_the_client() {
    let mut state = client_with_a_surface();

    // wl_surface's requests stop at 10. A client sending 99 is not speaking
    // the interface the compositor thinks this object is, and everything it
    // sends afterwards is decoded against that same disagreement.
    deliver(&mut state, SURFACE, 99, Vec::new());

    assert!(was_sent_an_error(&mut state), "the client must be told why");
    assert!(is_cancelled(&mut state), "and it must be disconnected");
}

#[test]
fn a_request_short_of_its_arguments_disconnects_the_client() {
    let mut state = client_with_a_surface();

    // wl_surface.frame carries a new_id. With no argument bytes at all there
    // is no callback to create and nothing to guess at.
    // (opcode 3 is wl_surface.frame)
    deliver(&mut state, SURFACE, 3, Vec::new());

    assert!(was_sent_an_error(&mut state));
    assert!(is_cancelled(&mut state));
}

#[test]
fn a_request_that_is_merely_unimplemented_is_not_fatal() {
    let mut state = client_with_a_surface();
    state.create_xdg_positioner(CLIENT, POSITIONER);
    state
        .clients
        .get(CLIENT)
        .unwrap()
        .register(POSITIONER, ObjectType::XdgPositioner)
        .unwrap();

    // `set_reactive` is part of the xdg_wm_base version this compositor
    // advertises, so a client is entitled to send it. Nothing acts on it yet,
    // and that is not the client's problem - the distinction between a request
    // not implemented and a request that does not exist is the whole reason
    // unknown opcodes can be made fatal at all.
    deliver(&mut state, POSITIONER, 7, ArgWriter::new().u32(1).build());

    assert!(!was_sent_an_error(&mut state));
    assert!(!is_cancelled(&mut state));
}

//! `wl_data_device_manager` protocol handler.
//!
//! The data device manager global lets clients create data sources (content
//! they can produce, for the clipboard or a drag) and get data devices (where
//! they are told what the clipboard holds and what is being dragged over them).

use crate::client::ObjectType;
use crate::objects::{DataDeviceBinding, DataSource, DataSourceRole, DataSourceView};
use crate::protocol::unknown_request;
use crate::protocol::wl_data_device;
use crate::state::{CompositorState, State};
use crate::wire::{ArgReader, Request, WaylandProtocolMessageWithClientInfo};
use vstd::prelude::*;

verus! {

// Request opcodes
pub const CREATE_DATA_SOURCE: u16 = 0;

pub const GET_DATA_DEVICE: u16 = 1;

/// `wl_data_device_manager.dnd_action`, the actions a drag can settle on.
///
/// Kept here because this is the interface that defines the enum, though both
/// `wl_data_source` and `wl_data_offer` negotiate with it.
pub const DND_ACTION_NONE: u32 = 0;

pub const DND_ACTION_COPY: u32 = 1;

pub const DND_ACTION_MOVE: u32 = 2;

pub const DND_ACTION_ASK: u32 = 4;

/// Every action the protocol defines. A mask with anything else in it is a
/// client out of step with the interface, and is an error on both sides.
pub const DND_ACTION_ALL: u32 = 7;

impl State {
    /// The state once a client has made a data source.
    pub open spec fn data_source_created(self, r: Request) -> Self {
        match r.word(0) {
            Some(source_id) => {
                let s = self.registered_as(r, source_id, ObjectType::WlDataSource);
                if self.can_register(r.client, source_id) {
                    State {
                        data_sources: s.data_sources.insert(
                            (r.client, source_id),
                            DataSourceView {
                                mime_types: Seq::empty(),
                                actions: 0,
                                role: DataSourceRole::Unused,
                            },
                        ),
                        ..s
                    }
                } else {
                    s
                }
            },
            None => self.errored(
                r.client,
                r.object,
                0,
                "wl_data_device_manager.create_data_source: malformed args"@,
            ),
        }
    }

    /// The state once a client has a data device. One that has the focus is
    /// told at once what the clipboard holds.
    pub open spec fn data_device_made(self, r: Request) -> Self {
        match (r.word(0), r.word(4)) {
            (Some(device_id), Some(_)) => {
                let s = self.registered_as(r, device_id, ObjectType::WlDataDevice);
                if self.can_register(r.client, device_id) {
                    let s = State {
                        data_devices: s.data_devices.push(
                            DataDeviceBinding { client_id: r.client, object_id: device_id },
                        ),
                        ..s
                    };
                    if self.focused_surface matches Some(f) && f.0 == r.client {
                        s.selection_to_device(r.client, device_id)
                    } else {
                        s
                    }
                } else {
                    s
                }
            },
            _ => self.errored(
                r.client,
                r.object,
                0,
                "wl_data_device_manager.get_data_device: malformed args"@,
            ),
        }
    }

    /// The state once a `wl_data_device_manager` request has been handled.
    pub open spec fn wl_data_device_manager_handled(self, r: Request) -> Self {
        if r.op == CREATE_DATA_SOURCE {
            self.data_source_created(r)
        } else if r.op == GET_DATA_DEVICE {
            self.data_device_made(r)
        } else {
            self.rejected(r, "wl_data_device_manager"@)
        }
    }
}

pub fn handle(state: &mut CompositorState, msg: &WaylandProtocolMessageWithClientInfo)
    requires
        old(state).wf(),
    ensures
        final(state).wf(),
        final(state)@ == old(state)@.wl_data_device_manager_handled(msg@),
{
    proof {
        reveal_strlit("wl_data_device_manager");
    }
    match msg.message.op_code {
        CREATE_DATA_SOURCE => handle_create_data_source(state, msg),
        GET_DATA_DEVICE => handle_get_data_device(state, msg),
        _ => unknown_request(state, msg, "wl_data_device_manager"),
    }
}

fn handle_create_data_source(
    state: &mut CompositorState,
    msg: &WaylandProtocolMessageWithClientInfo,
)
    requires
        old(state).wf(),
    ensures
        final(state).wf(),
        final(state)@ == old(state)@.data_source_created(msg@),
{
    proof {
        reveal_strlit("wl_data_device_manager.create_data_source: malformed args");
    }
    let mut args = ArgReader::new(msg.message.args.as_slice());
    let source_id: u32 = match args.new_id() {
        Some(id) => id,
        None => {
            state.fail(
                msg.client_id,
                msg.message.object_id,
                0,
                "wl_data_device_manager.create_data_source: malformed args",
            );
            return ;
        },
    };
    // The manager's version, carried down to the object it creates. Registering
    // without it would leave the source at version 1, where every one of the
    // drag-and-drop action events is version-gated off - the negotiation would
    // run and none of its results would ever reach the client.
    if !state.register_as(msg, source_id, ObjectType::WlDataSource) {
        return ;
    }
    let source = DataSource {
        mime_types: Vec::new(),
        actions: 0,
        role: DataSourceRole::Unused,
    };
    assert(source@.mime_types =~= Seq::empty());
    state.data_sources.insert((msg.client_id, source_id), source);
}

fn handle_get_data_device(state: &mut CompositorState, msg: &WaylandProtocolMessageWithClientInfo)
    requires
        old(state).wf(),
    ensures
        final(state).wf(),
        final(state)@ == old(state)@.data_device_made(msg@),
{
    proof {
        reveal_strlit("wl_data_device_manager.get_data_device: malformed args");
    }
    let mut args = ArgReader::new(msg.message.args.as_slice());
    // get_data_device args: new_id, object seat
    //
    // The seat is discarded: there is one seat, so there is nothing to
    // distinguish. It stays decoded rather than skipped so that a client
    // sending a short request is still caught as malformed.
    let (a, b) = (args.new_id(), args.u32());
    let device_id: u32 = match (a, b) {
        (Some(id), Some(_)) => id,
        _ => {
            state.fail(
                msg.client_id,
                msg.message.object_id,
                0,
                "wl_data_device_manager.get_data_device: malformed args",
            );
            return ;
        },
    };
    if !state.register_as(msg, device_id, ObjectType::WlDataDevice) {
        return ;
    }
    state.data_devices.push(DataDeviceBinding { client_id: msg.client_id, object_id: device_id });

    // A client usually gets its data device well after its first window is
    // focused, and the selection is otherwise only sent on a focus change - so
    // without this a client that never loses and regains focus would have an
    // empty clipboard for the rest of its life. The same shape `wl_seat`
    // already uses to send the keymap the moment a keyboard exists.
    let focused = match state.focused_surface {
        Some(surface) => surface.0 == msg.client_id,
        None => false,
    };
    if focused {
        wl_data_device::send_selection_to_device(state, msg.client_id, device_id);
    }
}

} // verus!

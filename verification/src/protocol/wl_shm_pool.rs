//! `wl_shm_pool` protocol handler.
//!
//! A pool is shared memory a client allocates buffers in.

use crate::client::ObjectType;
use crate::protocol::wl_shm::ERROR_INVALID_FD;
use crate::protocol::{malformed_request, unknown_request};
use crate::state::{CompositorState, State};
use crate::wire::{ArgReader, Request, WaylandProtocolMessageWithClientInfo};
use vstd::prelude::*;

verus! {

// Request opcodes
pub const CREATE_BUFFER: u16 = 0;

pub const DESTROY: u16 = 1;

pub const RESIZE: u16 = 2;

impl State {
    /// The state once a client has made a buffer in a pool.
    pub open spec fn shm_buffer_asked(self, r: Request) -> Self {
        match (
            r.word(0),
            r.signed(4),
            r.signed(8),
            r.signed(12),
            r.signed(16),
            r.word(20),
        ) {
            (
                Some(id),
                Some(offset),
                Some(width),
                Some(height),
                Some(stride),
                Some(format),
            ) => {
                let s = self.registered(r.client, id, ObjectType::WlBuffer);
                if self.can_register(r.client, id) {
                    s.shm_registered(
                        r.client,
                        id,
                        r.object,
                        offset,
                        width,
                        height,
                        stride,
                        format,
                    )
                } else {
                    s
                }
            },
            _ => self.malformed(r, "wl_shm_pool"@),
        }
    }

    /// The state once a pool is another size. One that cannot be mapped at its
    /// new size is the client's error.
    pub open spec fn pool_resize_asked(self, r: Request, mapped: bool) -> Self {
        match r.signed(0) {
            Some(size) if size > 0 => {
                let s = self.pool_resized(r.client, r.object, size as u32, mapped);
                if mapped && s.shm_pools.contains_key(r.key()) {
                    s
                } else {
                    s.errored(
                        r.client,
                        r.object,
                        ERROR_INVALID_FD,
                        "wl_shm_pool.resize: fd is not a readable file of at least the given size"@,
                    )
                }
            },
            _ => self.malformed(r, "wl_shm_pool"@),
        }
    }

    /// The state once a `wl_shm_pool` request has been handled: `mapped` is
    /// whether the memory could be mapped at its new size.
    pub open spec fn wl_shm_pool_handled(self, r: Request, mapped: bool) -> Self {
        if r.op == CREATE_BUFFER {
            self.shm_buffer_asked(r)
        } else if r.op == DESTROY {
            self.pool_destroyed(r.client, r.object).unregistered(r.client, r.object)
        } else if r.op == RESIZE {
            self.pool_resize_asked(r, mapped)
        } else {
            self.rejected(r, "wl_shm_pool"@)
        }
    }
}

pub fn handle(
    state: &mut CompositorState,
    msg: &WaylandProtocolMessageWithClientInfo,
    mapped: bool,
)
    requires
        old(state).wf(),
    ensures
        final(state).wf(),
        final(state)@ == old(state)@.wl_shm_pool_handled(msg@, mapped),
{
    proof {
        reveal_strlit("wl_shm_pool");
    }
    match msg.message.op_code {
        CREATE_BUFFER => handle_create_buffer(state, msg),
        DESTROY => {
            state.destroy_shm_pool(msg.client_id, msg.message.object_id);
            state.unregister(msg.client_id, msg.message.object_id);
        },
        RESIZE => handle_resize(state, msg, mapped),
        _ => unknown_request(state, msg, "wl_shm_pool"),
    }
}

fn handle_create_buffer(state: &mut CompositorState, msg: &WaylandProtocolMessageWithClientInfo)
    requires
        old(state).wf(),
    ensures
        final(state).wf(),
        final(state)@ == old(state)@.shm_buffer_asked(msg@),
{
    proof {
        reveal_strlit("wl_shm_pool");
    }
    let mut args = ArgReader::new(msg.message.args.as_slice());
    let (id, offset, width) = (args.new_id(), args.i32(), args.i32());
    let (height, stride, format) = (args.i32(), args.i32(), args.u32());
    match (id, offset, width, height, stride, format) {
        (
            Some(id),
            Some(offset),
            Some(width),
            Some(height),
            Some(stride),
            Some(format),
        ) => {
            if state.register(msg.client_id, id, ObjectType::WlBuffer) {
                state.register_buffer(
                    msg.client_id,
                    id,
                    msg.message.object_id,
                    offset,
                    width,
                    height,
                    stride,
                    format,
                );
            }
        },
        _ => malformed_request(state, msg, "wl_shm_pool"),
    }
}

fn handle_resize(
    state: &mut CompositorState,
    msg: &WaylandProtocolMessageWithClientInfo,
    mapped: bool,
)
    requires
        old(state).wf(),
    ensures
        final(state).wf(),
        final(state)@ == old(state)@.pool_resize_asked(msg@, mapped),
{
    proof {
        reveal_strlit("wl_shm_pool");
        reveal_strlit("wl_shm_pool.resize: fd is not a readable file of at least the given size");
    }
    let mut args = ArgReader::new(msg.message.args.as_slice());
    match args.i32() {
        Some(size) if size > 0 => {
            if !state.resize_shm_pool(msg.client_id, msg.message.object_id, size as u32, mapped) {
                state.fail(
                    msg.client_id,
                    msg.message.object_id,
                    ERROR_INVALID_FD,
                    "wl_shm_pool.resize: fd is not a readable file of at least the given size",
                );
            }
        },
        _ => malformed_request(state, msg, "wl_shm_pool"),
    }
}

} // verus!

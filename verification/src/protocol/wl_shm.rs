//! `wl_shm` protocol handler.
//!
//! Manages shared memory for buffer allocation. Clients bind `wl_shm` to
//! discover supported pixel formats, then call `create_pool` with a file
//! descriptor to a region that can be mapped. Pools are used to allocate
//! `wl_buffers`.

use crate::client::{ClientState, ClientView, ObjectType};
use crate::protocol::unknown_request;
use crate::state::{CompositorState, State};
use crate::wire::{self, tell1, ArgReader, Fd, Request, WaylandProtocolMessageWithClientInfo};
use vstd::prelude::*;

verus! {

// Request opcodes
/// Carries a file descriptor - see [`crate::protocol::request_fd_count`].
pub const CREATE_POOL: u16 = 0;

// Event opcodes
pub const FORMAT: u16 = 0;

// Pixel formats
pub const FORMAT_ARGB8888: u32 = 0;

pub const FORMAT_XRGB8888: u32 = 1;

/// `wl_shm.error.invalid_fd`
pub const ERROR_INVALID_FD: u32 = 2;

impl ClientView {
    /// The client once it knows which pixel formats there are.
    pub open spec fn shm_formats_told(self, shm_id: u32) -> Self {
        self.sent(wire::told1(shm_id, FORMAT, FORMAT_ARGB8888)).sent(
            wire::told1(shm_id, FORMAT, FORMAT_XRGB8888),
        )
    }
}

impl State {
    /// The state once a client has made a pool, or been told why not. A
    /// descriptor that does not become a pool's is closed.
    pub open spec fn pool_asked(self, r: Request, fds: Seq<Fd>, mapped: bool) -> Self {
        match (r.word(0), r.signed(4)) {
            (Some(pool_id), Some(size)) => if size <= 0 {
                self.errored(r.client, r.object, 0, "wl_shm.create_pool: invalid size"@).all_closed(
                    fds,
                )
            } else if fds.len() == 0 {
                self.errored(r.client, r.object, 0, "wl_shm.create_pool: missing fd"@)
            } else {
                let s = self.registered(r.client, pool_id, ObjectType::WlShmPool);
                if self.can_register(r.client, pool_id) {
                    let s = s.pool_registered(r.client, pool_id, fds[0], size as u32, mapped);
                    let s = if mapped {
                        s
                    } else {
                        s.errored(
                            r.client,
                            r.object,
                            ERROR_INVALID_FD,
                            "wl_shm.create_pool: fd is not a readable file of at least the given size"@,
                        )
                    };
                    s.all_closed(fds.skip(1))
                } else {
                    s.all_closed(fds)
                }
            },
            _ => self.errored(r.client, r.object, 0, "wl_shm.create_pool: malformed args"@).all_closed(
                fds,
            ),
        }
    }

    /// The state once a `wl_shm` request has been handled: `mapped` is whether
    /// the memory that came with it could be mapped.
    pub open spec fn wl_shm_handled(self, r: Request, fds: Seq<Fd>, mapped: bool) -> Self {
        if r.op == CREATE_POOL {
            self.pool_asked(r, fds, mapped)
        } else {
            self.all_closed(fds).rejected(r, "wl_shm"@)
        }
    }
}

pub fn handle(
    state: &mut CompositorState,
    msg: &WaylandProtocolMessageWithClientInfo,
    fds: Vec<Fd>,
    mapped: bool,
)
    requires
        old(state).wf(),
    ensures
        final(state).wf(),
        final(state)@ == old(state)@.wl_shm_handled(msg@, fds@, mapped),
{
    proof {
        reveal_strlit("wl_shm");
    }
    match msg.message.op_code {
        CREATE_POOL => handle_create_pool(state, msg, fds, mapped),
        _ => {
            state.close_all(&fds);
            unknown_request(state, msg, "wl_shm");
        },
    }
}

/// Everything is checked before the descriptor becomes the pool's, and every
/// error path closes it.
fn handle_create_pool(
    state: &mut CompositorState,
    msg: &WaylandProtocolMessageWithClientInfo,
    fds: Vec<Fd>,
    mapped: bool,
)
    requires
        old(state).wf(),
    ensures
        final(state).wf(),
        final(state)@ == old(state)@.pool_asked(msg@, fds@, mapped),
{
    let mut args = ArgReader::new(msg.message.args.as_slice());
    // create_pool args: new_id, fd (passed out-of-band), int32 size
    let (pool_id, size) = (args.new_id(), args.i32());
    let (pool_id, size): (u32, i32) = match (pool_id, size) {
        (Some(pool_id), Some(size)) => (pool_id, size),
        _ => {
            proof {
                reveal_strlit("wl_shm.create_pool: malformed args");
            }
            state.fail(
                msg.client_id,
                msg.message.object_id,
                0,
                "wl_shm.create_pool: malformed args",
            );
            state.close_all(&fds);
            return ;
        },
    };
    if size <= 0 {
        proof {
            reveal_strlit("wl_shm.create_pool: invalid size");
        }
        state.fail(msg.client_id, msg.message.object_id, 0, "wl_shm.create_pool: invalid size");
        state.close_all(&fds);
        return ;
    }
    if fds.len() == 0 {
        proof {
            reveal_strlit("wl_shm.create_pool: missing fd");
        }
        state.fail(msg.client_id, msg.message.object_id, 0, "wl_shm.create_pool: missing fd");
        return ;
    }
    if !state.register(msg.client_id, pool_id, ObjectType::WlShmPool) {
        state.close_all(&fds);
        return ;
    }
    let mut fds = fds;
    let ghost all = fds@;
    let fd = fds.remove(0);
    assert(fds@ =~= all.skip(1));
    if !state.register_shm_pool(msg.client_id, pool_id, fd, size as u32, mapped) {
        proof {
            reveal_strlit(
                "wl_shm.create_pool: fd is not a readable file of at least the given size",
            );
        }
        state.fail(
            msg.client_id,
            msg.message.object_id,
            ERROR_INVALID_FD,
            "wl_shm.create_pool: fd is not a readable file of at least the given size",
        );
    }
    state.close_all(&fds);
}

/// Send `wl_shm.format` events for all supported pixel formats.
pub fn send_formats(client: &mut ClientState, shm_id: u32)
    requires
        old(client).wf(),
    ensures
        final(client).wf(),
        final(client)@ == old(client)@.shm_formats_told(shm_id),
{
    let _ = client.send(tell1(shm_id, FORMAT, FORMAT_ARGB8888));
    let _ = client.send(tell1(shm_id, FORMAT, FORMAT_XRGB8888));
}

} // verus!

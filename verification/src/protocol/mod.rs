//! The Wayland protocol, interface by interface.
//!
//! What a request does is said as the [`State`] it leads to, next to the
//! handler that does it.

use crate::client::{ClientView, ObjectType};
use crate::state::{self, CompositorState, State};
use crate::text;
use crate::wire::{self, ArgReader, Fd, Request, WaylandProtocolMessageWithClientInfo};
use vstd::prelude::*;
use vstd::string::StringExecFns;

pub mod wl_buffer;
pub mod wl_callback;
pub mod wl_compositor;
pub mod wl_data_device;
pub mod wl_data_device_manager;
pub mod wl_data_offer;
pub mod wl_data_source;
pub mod wl_display;
pub mod wl_fixes;
pub mod wl_keyboard;
pub mod wl_output;
pub mod wl_pointer;
pub mod wl_region;
pub mod wl_registry;
pub mod wl_seat;
pub mod wl_shm;
pub mod wl_shm_pool;
pub mod wl_subcompositor;
pub mod wl_subsurface;
pub mod wl_surface;
pub mod wl_touch;
pub mod wp_presentation;
pub mod wp_presentation_feedback;
pub mod wp_viewport;
pub mod wp_viewporter;
pub mod xdg_popup;
pub mod xdg_positioner;
pub mod xdg_surface;
pub mod xdg_system_bell;
pub mod xdg_toplevel;
pub mod xdg_wm_base;
pub mod zwp_linux_buffer_params;
pub mod zwp_linux_dmabuf;

verus! {

/// `wl_display.error` codes. Every one of them is fatal - see
/// [`crate::client::ClientState::send_error`].
///
/// The object named does not exist, or the client is not allowed to name it.
pub const ERROR_INVALID_OBJECT: u32 = 0;

/// The object exists, but the request named is not one of its own.
pub const ERROR_INVALID_METHOD: u32 = 1;

/// What a client is told that has sent a request its object does not have.
pub open spec fn unknown_text(interface: Seq<char>, op: u16) -> Seq<char> {
    interface + " has no request "@ + text::decimal(op as nat)
}

/// What a client is told whose request does not have the arguments it should.
pub open spec fn malformed_text(interface: Seq<char>, op: u16) -> Seq<char> {
    "malformed arguments for "@ + interface + " request "@ + text::decimal(op as nat)
}

impl State {
    /// The state once a request its object does not have has been rejected.
    pub open spec fn rejected(self, r: Request, interface: Seq<char>) -> Self {
        self.errored(r.client, r.object, ERROR_INVALID_METHOD, unknown_text(interface, r.op))
    }

    /// The state once a request whose arguments do not decode has been
    /// rejected.
    pub open spec fn malformed(self, r: Request, interface: Seq<char>) -> Self {
        self.errored(r.client, r.object, ERROR_INVALID_METHOD, malformed_text(interface, r.op))
    }

    /// The state once a request has been looked at that carries some words the
    /// compositor has no use for. One that is short of them is rejected.
    pub open spec fn acknowledged(self, r: Request, words: nat, interface: Seq<char>) -> Self {
        if r.args.len() < 4 * words {
            self.malformed(r, interface)
        } else {
            self
        }
    }
}

/// Hand out the next serial.
pub fn next_serial(state: &mut CompositorState) -> (r: u32)
    requires
        old(state).wf(),
    ensures
        final(state).wf(),
        final(state)@ == old(state)@.ticked(),
        r == old(state)@.next_serial,
{
    state.next_serial()
}

/// Reject a request whose opcode the interface does not have.
///
/// Being lenient here is tempting and wrong. An opcode outside an interface's
/// range means the client and the compositor disagree about what object this id
/// is, or about what version of the interface it is speaking - and every later
/// request on that connection is decoded against the same disagreement. Carrying
/// on leaves the client believing its request was honoured, and turns one
/// recognisable fault into arbitrary behaviour some distance away.
///
/// The compositor's side of the bargain is that a request in an interface's
/// advertised version is always in the match: a request accepted but not yet
/// acted on gets an arm of its own that does nothing, so "not implemented" and
/// "not a request" never look alike from here.
pub fn unknown_request(
    state: &mut CompositorState,
    msg: &WaylandProtocolMessageWithClientInfo,
    interface: &str,
)
    requires
        old(state).wf(),
        interface@.len() <= 0x1000,
    ensures
        final(state).wf(),
        final(state)@ == old(state)@.rejected(msg@, interface@),
{
    let digits = text::decimal_text(msg.message.op_code as u32);
    let reason = text::joined(interface, " has no request ", digits.as_str());
    proof {
        reveal_strlit(" has no request ");
    }
    state.fail(msg.client_id, msg.message.object_id, ERROR_INVALID_METHOD, reason.as_str());
}

/// Reject a request whose arguments do not decode.
///
/// A request that is short of the arguments its opcode carries is not a client
/// being economical - the wire format is fixed-width per argument, so the
/// bytes were either never written or the sender is out of step with the
/// interface it thinks it is calling. Either way the compositor cannot know
/// what was meant, and returning quietly leaves the client waiting on the
/// effect of a request that never happened.
pub fn malformed_request(
    state: &mut CompositorState,
    msg: &WaylandProtocolMessageWithClientInfo,
    interface: &str,
)
    requires
        old(state).wf(),
        interface@.len() <= 0x1000,
    ensures
        final(state).wf(),
        final(state)@ == old(state)@.malformed(msg@, interface@),
{
    let digits = text::decimal_text(msg.message.op_code as u32);
    let mut reason = text::joined("malformed arguments for ", interface, " request ");
    reason.append(digits.as_str());
    proof {
        reveal_strlit("malformed arguments for ");
        reveal_strlit(" request ");
    }
    state.fail(msg.client_id, msg.message.object_id, ERROR_INVALID_METHOD, reason.as_str());
}

/// Look at a request that carries some words the compositor has no use for.
/// Returns whether they are all there.
///
/// They are counted all the same: a client that leaves them out is out of step
/// with the interface it thinks it is calling.
pub fn acknowledge(
    state: &mut CompositorState,
    msg: &WaylandProtocolMessageWithClientInfo,
    words: usize,
    interface: &str,
) -> (r: bool)
    requires
        old(state).wf(),
        words <= 0x10,
        interface@.len() <= 0x1000,
    ensures
        final(state).wf(),
        final(state)@ == old(state)@.acknowledged(msg@, words as nat, interface@),
        r == (msg@.args.len() >= 4 * words),
{
    if msg.message.args.len() < 4 * words {
        malformed_request(state, msg, interface);
        return false;
    }
    true
}

/// What the outside world answers to what a request asks of it.
#[derive(Debug, Clone, Copy, PartialEq, Eq, Structural)]
pub struct Outside {
    /// The memory of [`memory_to_map`] could be mapped
    pub mapped: bool,
    /// How long the descriptor of [`plane_to_measure`] says it is
    pub plane_size: i64,
    /// The backend will take a request
    pub backend_ready: bool,
}

/// How many descriptors a request comes with.
pub open spec fn fd_count(object_type: ObjectType, op: u16) -> nat {
    if (object_type == ObjectType::WlShm && op == wl_shm::CREATE_POOL) || (object_type
        == ObjectType::WlDataOffer && op == wl_data_offer::RECEIVE) || (object_type
        == ObjectType::ZwpLinuxBufferParams && op == zwp_linux_buffer_params::ADD) {
        1
    } else {
        0
    }
}

/// Number of file descriptors a request carries as ancillary data.
///
/// Wayland passes fds out-of-band, so the socket task cannot pair them with
/// messages on its own - that needs the object id to interface mapping, which
/// only lives here. This table is the single place that pairing is decided, and
/// [`handle_message`] applies it to every request before dispatch.
///
/// Any new request taking an `fd` argument MUST be listed here, and its
/// interface's arm in [`handle_message`] widened to receive the fds. Forgetting
/// the table entry desyncs the client's fd queue for the rest of the
/// connection.
pub fn request_fd_count(object_type: ObjectType, op_code: u16) -> (r: usize)
    ensures
        r == fd_count(object_type, op_code),
        r <= 1,
{
    match (object_type, op_code) {
        (ObjectType::WlShm, wl_shm::CREATE_POOL) => 1,
        (ObjectType::WlDataOffer, wl_data_offer::RECEIVE) => 1,
        (ObjectType::ZwpLinuxBufferParams, zwp_linux_buffer_params::ADD) => 1,
        _ => 0,
    }
}

/// What a client is told that has named an object it does not have.
pub open spec fn invalid_text(object_id: u32) -> Seq<char> {
    "invalid object "@ + text::decimal(object_id as nat) + ""@
}

impl State {
    /// What an object of a client is.
    pub open spec fn type_of(self, client_id: u32, object_id: u32) -> Option<ObjectType> {
        if self.knows(client_id) && self.clients[client_id].objects.contains_key(object_id) {
            Some(self.clients[client_id].objects[object_id])
        } else {
            None
        }
    }

    /// The state once a request has been handled by the interface it is for.
    #[verifier::opaque]
    pub open spec fn dispatched(
        self,
        object_type: ObjectType,
        r: Request,
        fds: Seq<Fd>,
        outside: Outside,
    ) -> Self {
        match object_type {
            ObjectType::WlDisplay => self.wl_display_handled(r),
            ObjectType::WlRegistry => self.wl_registry_handled(r),
            ObjectType::WlCallback => self.wl_callback_handled(r),
            ObjectType::WlCompositor => self.wl_compositor_handled(r),
            ObjectType::WlSurface => self.wl_surface_handled(r),
            ObjectType::WlRegion => self.wl_region_handled(r),
            ObjectType::WlSubcompositor => self.wl_subcompositor_handled(r),
            ObjectType::WlSubsurface => self.wl_subsurface_handled(r),
            ObjectType::WlDataDeviceManager => self.wl_data_device_manager_handled(r),
            ObjectType::WlDataDevice => self.wl_data_device_handled(r),
            ObjectType::WlDataSource => self.wl_data_source_handled(r),
            ObjectType::WlSeat => self.wl_seat_handled(r),
            ObjectType::WlPointer => self.wl_pointer_handled(r),
            ObjectType::WlKeyboard => self.wl_keyboard_handled(r),
            ObjectType::WlTouch => self.wl_touch_handled(r),
            ObjectType::WlOutput => self.wl_output_handled(r),
            ObjectType::WlFixes => self.wl_fixes_handled(r),
            ObjectType::XdgWmBase => self.xdg_wm_base_handled(r),
            ObjectType::XdgSurface => self.xdg_surface_handled(r),
            ObjectType::XdgSystemBell => self.xdg_system_bell_handled(r),
            ObjectType::XdgToplevel => self.xdg_toplevel_handled(r),
            ObjectType::XdgPopup => self.xdg_popup_handled(r),
            ObjectType::XdgPositioner => self.xdg_positioner_handled(r),
            ObjectType::WlBuffer => self.wl_buffer_handled(r),
            ObjectType::WpPresentation => self.wp_presentation_handled(r),
            ObjectType::WpPresentationFeedback => self.wp_presentation_feedback_handled(r),
            ObjectType::WpViewporter => self.wp_viewporter_handled(r),
            ObjectType::WpViewport => self.wp_viewport_handled(r),
            ObjectType::ZwpLinuxDmabuf => self.zwp_linux_dmabuf_handled(r),
            ObjectType::WlShm => self.wl_shm_handled(r, fds, outside.mapped),
            ObjectType::WlShmPool => self.wl_shm_pool_handled(r, outside.mapped),
            ObjectType::WlDataOffer => self.wl_data_offer_handled(r, fds),
            ObjectType::ZwpLinuxBufferParams => self.zwp_linux_buffer_params_handled(
                r,
                fds,
                outside.plane_size,
                outside.backend_ready,
            ),
        }
    }

    /// The state once a client's message has been handled. The descriptors a
    /// request comes with are taken off the client's queue before it is looked
    /// at any further.
    pub open spec fn message_handled(self, r: Request, outside: Outside) -> Self {
        if !self.knows(r.client) {
            self
        } else {
            match self.type_of(r.client, r.object) {
                Some(object_type) => {
                    let client = self.clients[r.client];
                    let count = fd_count(object_type, r.op);
                    if client.fd_queue.len() < count {
                        self.errored(
                            r.client,
                            r.object,
                            ERROR_INVALID_METHOD,
                            "request is missing its file descriptor"@,
                        )
                    } else {
                        self.with_client(
                            r.client,
                            ClientView { fd_queue: client.fd_queue.skip(count as int), ..client },
                        ).dispatched(
                            object_type,
                            r,
                            client.fd_queue.take(count as int),
                            outside,
                        )
                    }
                },
                None => self.errored(
                    r.client,
                    r.object,
                    ERROR_INVALID_OBJECT,
                    invalid_text(r.object),
                ),
            }
        }
    }

    /// The memory a request asks to have mapped, and how much of it.
    pub open spec fn memory_asked(self, r: Request) -> Option<(Fd, u32)> {
        match self.type_of(r.client, r.object) {
            Some(ObjectType::WlShm) => match r.signed(4) {
                Some(size) if r.op == wl_shm::CREATE_POOL && size > 0
                    && self.clients[r.client].fd_queue.len() > 0 => Some(
                    (self.clients[r.client].fd_queue[0], size as u32),
                ),
                _ => None,
            },
            Some(ObjectType::WlShmPool) => match r.signed(0) {
                Some(size) if r.op == wl_shm_pool::RESIZE && size > 0
                    && self.shm_pools.contains_key(r.key()) => Some(
                    (self.shm_pools[r.key()].fd, size as u32),
                ),
                _ => None,
            },
            _ => None,
        }
    }

    /// The descriptor whose length a request depends on.
    pub open spec fn plane_asked(self, r: Request) -> Option<Fd> {
        if self.type_of(r.client, r.object) == Some(ObjectType::ZwpLinuxBufferParams) && (r.op
            == zwp_linux_buffer_params::CREATE || r.op == zwp_linux_buffer_params::CREATE_IMMED)
            && self.dmabuf_params.contains_key(r.key()) {
            match self.dmabuf_params[r.key()].plane0 {
                Some(p) => Some(p.plane.fd),
                None => None,
            }
        } else {
            None
        }
    }
}

/// The memory a request asks to have mapped, and how much of it. What came of
/// it is to be said when the request is handled.
pub fn memory_to_map(state: &CompositorState, msg: &WaylandProtocolMessageWithClientInfo) -> (r:
    Option<(Fd, u32)>)
    requires
        state.wf(),
    ensures
        r == state@.memory_asked(msg@),
{
    let object_type = match state.clients.type_of(msg.client_id, msg.message.object_id) {
        Some(object_type) => object_type,
        None => {
            return None;
        },
    };
    let mut args = ArgReader::new(msg.message.args.as_slice());
    match (object_type, msg.message.op_code) {
        (ObjectType::WlShm, wl_shm::CREATE_POOL) => {
            let (id, size) = (args.new_id(), args.i32());
            match (size, state.clients.first_fd(msg.client_id)) {
                (Some(size), Some(fd)) => if size > 0 && id.is_some() {
                    Some((fd, size as u32))
                } else {
                    None
                },
                _ => None,
            }
        },
        (ObjectType::WlShmPool, wl_shm_pool::RESIZE) => match args.i32() {
            Some(size) if size > 0 => match state.shm_pools.get(
                (msg.client_id, msg.message.object_id),
            ) {
                Some(pool) => Some((pool.fd, size as u32)),
                None => None,
            },
            _ => None,
        },
        _ => None,
    }
}

/// The descriptor whose length a request depends on. What it is is to be said
/// when the request is handled.
pub fn plane_to_measure(state: &CompositorState, msg: &WaylandProtocolMessageWithClientInfo) -> (r:
    Option<Fd>)
    requires
        state.wf(),
    ensures
        r == state@.plane_asked(msg@),
{
    match state.clients.type_of(msg.client_id, msg.message.object_id) {
        Some(ObjectType::ZwpLinuxBufferParams) => {},
        _ => {
            return None;
        },
    }
    let op: u16 = msg.message.op_code;
    if op != zwp_linux_buffer_params::CREATE && op != zwp_linux_buffer_params::CREATE_IMMED {
        return None;
    }
    match state.dmabuf_params.get((msg.client_id, msg.message.object_id)) {
        Some(params) => match params.plane0 {
            Some(p) => Some(p.plane.fd),
            None => None,
        },
        None => None,
    }
}

/// Dispatch an individual message coming from the socket to the appropriate
/// handler to decode and update compositor state.
///
/// The fds a request is specified to carry are claimed before any handler runs.
/// Holding them here rather than leaving them on the client's queue is what
/// makes the accounting total: a handler that has no use for them closes them,
/// instead of their being mispaired with a later request.
pub fn handle_message(
    state: &mut CompositorState,
    msg: &WaylandProtocolMessageWithClientInfo,
    outside: Outside,
)
    requires
        old(state).wf(),
        msg@.fits(),
    ensures
        final(state).wf(),
        final(state)@ == old(state)@.message_handled(msg@, outside),
{
    let object_id: u32 = msg.message.object_id;
    let client_id: u32 = msg.client_id;
    if !state.clients.contains(client_id) {
        return ;
    }
    let object_type = match state.clients.type_of(client_id, object_id) {
        Some(object_type) => object_type,
        None => {
            // Fatal by spec. Also necessary here: there is no knowing how many
            // fds an unknown object's request carried, so anything it attached
            // is already orphaned on the queue and would mispair later
            // requests.
            let digits = text::decimal_text(object_id);
            let reason = text::joined("invalid object ", digits.as_str(), "");
            proof {
                reveal_strlit("invalid object ");
                reveal_strlit("");
            }
            state.fail(client_id, object_id, ERROR_INVALID_OBJECT, reason.as_str());
            return ;
        },
    };
    let count: usize = request_fd_count(object_type, msg.message.op_code);
    let claimed = match state.clients.get(client_id) {
        Some(client) => client.claim_fds(count),
        None => None,
    };
    let fds = match claimed {
        Some(fds) => fds,
        None => {
            // An fd always arrives with the first byte of the message it
            // belongs to, so a short queue is a genuine protocol violation
            // rather than a race with the socket. Continuing would mispair
            // every later fd.
            assert(state@ =~= old(state)@);
            proof {
                reveal_strlit("request is missing its file descriptor");
            }
            state.fail(
                client_id,
                object_id,
                ERROR_INVALID_METHOD,
                "request is missing its file descriptor",
            );
            return ;
        },
    };
    dispatch(state, object_type, msg, fds, outside);
}

/// Hand a request to the interface it is for.
fn dispatch(
    state: &mut CompositorState,
    object_type: ObjectType,
    msg: &WaylandProtocolMessageWithClientInfo,
    fds: Vec<Fd>,
    outside: Outside,
)
    requires
        old(state).wf(),
        msg@.fits(),
    ensures
        final(state).wf(),
        final(state)@ == old(state)@.dispatched(object_type, msg@, fds@, outside),
{
    reveal(State::dispatched);
    match object_type {
        ObjectType::WlDisplay => wl_display::handle(state, msg),
        ObjectType::WlRegistry => wl_registry::handle(state, msg),
        ObjectType::WlCallback => wl_callback::handle(state, msg),
        ObjectType::WlCompositor => wl_compositor::handle(state, msg),
        ObjectType::WlSurface => wl_surface::handle(state, msg),
        ObjectType::WlRegion => wl_region::handle(state, msg),
        ObjectType::WlSubcompositor => wl_subcompositor::handle(state, msg),
        ObjectType::WlSubsurface => wl_subsurface::handle(state, msg),
        ObjectType::WlDataDeviceManager => wl_data_device_manager::handle(state, msg),
        ObjectType::WlDataDevice => wl_data_device::handle(state, msg),
        ObjectType::WlDataSource => wl_data_source::handle(state, msg),
        ObjectType::WlSeat => wl_seat::handle(state, msg),
        ObjectType::WlPointer => wl_pointer::handle(state, msg),
        ObjectType::WlKeyboard => wl_keyboard::handle(state, msg),
        ObjectType::WlTouch => wl_touch::handle(state, msg),
        ObjectType::WlOutput => wl_output::handle(state, msg),
        ObjectType::WlFixes => wl_fixes::handle(state, msg),
        ObjectType::XdgWmBase => xdg_wm_base::handle(state, msg),
        ObjectType::XdgSurface => xdg_surface::handle(state, msg),
        ObjectType::XdgSystemBell => xdg_system_bell::handle(state, msg),
        ObjectType::XdgToplevel => xdg_toplevel::handle(state, msg),
        ObjectType::XdgPopup => xdg_popup::handle(state, msg),
        ObjectType::XdgPositioner => xdg_positioner::handle(state, msg),
        ObjectType::WlBuffer => wl_buffer::handle(state, msg),
        ObjectType::WpPresentation => wp_presentation::handle(state, msg),
        ObjectType::WpPresentationFeedback => wp_presentation_feedback::handle(state, msg),
        ObjectType::WpViewporter => wp_viewporter::handle(state, msg),
        ObjectType::WpViewport => wp_viewport::handle(state, msg),
        ObjectType::ZwpLinuxDmabuf => zwp_linux_dmabuf::handle(state, msg),
        ObjectType::WlShm => wl_shm::handle(state, msg, fds, outside.mapped),
        ObjectType::WlShmPool => wl_shm_pool::handle(state, msg, outside.mapped),
        ObjectType::WlDataOffer => wl_data_offer::handle(state, msg, fds),
        ObjectType::ZwpLinuxBufferParams => zwp_linux_buffer_params::handle(
            state,
            msg,
            fds,
            outside.plane_size,
            outside.backend_ready,
        ),
    }
}

/// What the interface of an object is called.
pub open spec fn interface_of(object_type: ObjectType) -> Seq<char> {
    match object_type {
        ObjectType::WlDisplay => "wl_display"@,
        ObjectType::WlRegistry => "wl_registry"@,
        ObjectType::WlCallback => "wl_callback"@,
        ObjectType::WlCompositor => "wl_compositor"@,
        ObjectType::WlSurface => "wl_surface"@,
        ObjectType::WlRegion => "wl_region"@,
        ObjectType::WlSubcompositor => "wl_subcompositor"@,
        ObjectType::WlSubsurface => "wl_subsurface"@,
        ObjectType::WlDataDeviceManager => "wl_data_device_manager"@,
        ObjectType::WlDataDevice => "wl_data_device"@,
        ObjectType::WlDataSource => "wl_data_source"@,
        ObjectType::WlDataOffer => "wl_data_offer"@,
        ObjectType::WlSeat => "wl_seat"@,
        ObjectType::WlPointer => "wl_pointer"@,
        ObjectType::WlKeyboard => "wl_keyboard"@,
        ObjectType::WlTouch => "wl_touch"@,
        ObjectType::WlOutput => "wl_output"@,
        ObjectType::WlFixes => "wl_fixes"@,
        ObjectType::XdgWmBase => "xdg_wm_base"@,
        ObjectType::XdgSurface => "xdg_surface"@,
        ObjectType::XdgSystemBell => "xdg_system_bell_v1"@,
        ObjectType::XdgToplevel => "xdg_toplevel"@,
        ObjectType::XdgPopup => "xdg_popup"@,
        ObjectType::XdgPositioner => "xdg_positioner"@,
        ObjectType::WlBuffer => "wl_buffer"@,
        ObjectType::WpPresentation => "wp_presentation"@,
        ObjectType::WpPresentationFeedback => "wp_presentation_feedback"@,
        ObjectType::WpViewporter => "wp_viewporter"@,
        ObjectType::WpViewport => "wp_viewport"@,
        ObjectType::ZwpLinuxDmabuf => "zwp_linux_dmabuf_v1"@,
        ObjectType::WlShm => "wl_shm"@,
        ObjectType::WlShmPool => "wl_shm_pool"@,
        ObjectType::ZwpLinuxBufferParams => "zwp_linux_buffer_params_v1"@,
    }
}

/// How many requests the interface of an object has.
pub open spec fn request_count(object_type: ObjectType) -> u16 {
    match object_type {
        ObjectType::WlDisplay => 2,
        ObjectType::WlRegistry => 1,
        ObjectType::WlCallback => 0,
        ObjectType::WlCompositor => 2,
        ObjectType::WlSurface => 11,
        ObjectType::WlRegion => 3,
        ObjectType::WlSubcompositor => 2,
        ObjectType::WlSubsurface => 6,
        ObjectType::WlDataDeviceManager => 2,
        ObjectType::WlDataDevice => 3,
        ObjectType::WlDataSource => 3,
        ObjectType::WlDataOffer => 5,
        ObjectType::WlSeat => 4,
        ObjectType::WlPointer => 2,
        ObjectType::WlKeyboard => 1,
        ObjectType::WlTouch => 1,
        ObjectType::WlOutput => 1,
        ObjectType::WlFixes => 2,
        ObjectType::XdgWmBase => 4,
        ObjectType::XdgSurface => 5,
        ObjectType::XdgSystemBell => 2,
        ObjectType::XdgToplevel => 14,
        ObjectType::XdgPopup => 3,
        ObjectType::XdgPositioner => 10,
        ObjectType::WlBuffer => 1,
        ObjectType::WpPresentation => 2,
        ObjectType::WpPresentationFeedback => 0,
        ObjectType::WpViewporter => 2,
        ObjectType::WpViewport => 3,
        ObjectType::ZwpLinuxDmabuf => 2,
        ObjectType::WlShm => 1,
        ObjectType::WlShmPool => 3,
        ObjectType::ZwpLinuxBufferParams => 4,
    }
}

/// An interface rejects a request it does not have.
proof fn lemma_dispatch_rejects(
    s: State,
    r: Request,
    fds: Seq<Fd>,
    outside: Outside,
    object_type: ObjectType,
)
    requires
        r.op >= request_count(object_type),
        fds.len() == 0,
    ensures
        s.dispatched(object_type, r, fds, outside) == s.rejected(r, interface_of(object_type)),
{
    assert(s.all_closed(fds) == s);
    assert(s.rejected(r, interface_of(object_type)).all_closed(fds) == s.rejected(
        r,
        interface_of(object_type),
    ));
    reveal(State::dispatched);
}

/// A client that makes a request its object does not have is told so and
/// disconnected, and nothing else changes.
pub proof fn law_requests_that_do_not_exist_disconnect(
    s: State,
    r: Request,
    outside: Outside,
    object_type: ObjectType,
)
    requires
        s.type_of(r.client, r.object) == Some(object_type),
        r.op >= request_count(object_type),
    ensures
        s.message_handled(r, outside) == s.rejected(r, interface_of(object_type)),
        s.message_handled(r, outside).clients[r.client].cancelled,
{
    let client = s.clients[r.client];
    assert(client.fd_queue.skip(0) =~= client.fd_queue);
    let claimed = s.with_client(
        r.client,
        ClientView { fd_queue: client.fd_queue.skip(0), ..client },
    );
    assert(claimed.clients =~= s.clients);
    assert(claimed == s);
    lemma_dispatch_rejects(s, r, client.fd_queue.take(0), outside, object_type);
}

/// A client that makes a request of an object it does not have is told so and
/// disconnected, and nothing else changes.
pub proof fn law_requests_of_no_object_disconnect(s: State, r: Request, outside: Outside)
    requires
        s.knows(r.client),
        s.type_of(r.client, r.object) is None,
    ensures
        s.message_handled(r, outside) == s.errored(
            r.client,
            r.object,
            ERROR_INVALID_OBJECT,
            invalid_text(r.object),
        ),
        s.message_handled(r, outside).clients[r.client].cancelled,
{
}

/// A request that comes without a descriptor it needs disconnects its client.
/// No descriptor of the client's is taken for it, and nothing else changes.
pub proof fn law_requests_without_their_descriptor_disconnect(
    s: State,
    r: Request,
    outside: Outside,
    object_type: ObjectType,
)
    requires
        s.type_of(r.client, r.object) == Some(object_type),
        s.clients[r.client].fd_queue.len() < fd_count(object_type, r.op),
    ensures
        s.message_handled(r, outside) == s.errored(
            r.client,
            r.object,
            ERROR_INVALID_METHOD,
            "request is missing its file descriptor"@,
        ),
        s.message_handled(r, outside).clients[r.client].cancelled,
        s.message_handled(r, outside).clients[r.client].fd_queue == s.clients[r.client].fd_queue,
{
}

/// How many bytes of arguments a request carries at the least. A string counts
/// for its length alone.
pub open spec fn argument_bytes(object_type: ObjectType, op: u16) -> nat {
    match object_type {
        ObjectType::WlDisplay => 4,
        ObjectType::WlRegistry => 16,
        ObjectType::WlCompositor => 4,
        ObjectType::WlSurface => match op {
            1 => 12,
            2 | 9 => 16,
            3 | 4 | 5 | 7 | 8 => 4,
            10 => 8,
            _ => 0,
        },
        ObjectType::WlRegion => if op == 0 {
            0
        } else {
            16
        },
        ObjectType::WlSubcompositor => if op == 0 {
            0
        } else {
            12
        },
        ObjectType::WlSubsurface => match op {
            1 => 8,
            2 | 3 => 4,
            _ => 0,
        },
        ObjectType::WlDataDeviceManager => match op {
            0 => 4,
            _ => 8,
        },
        ObjectType::WlDataDevice => match op {
            0 => 16,
            1 => 8,
            _ => 0,
        },
        ObjectType::WlDataSource => match op {
            1 => 0,
            _ => 4,
        },
        ObjectType::WlDataOffer => match op {
            0 | 4 => 8,
            1 => 4,
            _ => 0,
        },
        ObjectType::WlSeat => if op == 3 {
            0
        } else {
            4
        },
        ObjectType::WlPointer => if op == 0 {
            16
        } else {
            0
        },
        ObjectType::WlFixes | ObjectType::XdgSystemBell | ObjectType::ZwpLinuxDmabuf => if op == 0 {
            0
        } else {
            4
        },
        ObjectType::XdgWmBase => match op {
            1 | 3 => 4,
            2 => 8,
            _ => 0,
        },
        ObjectType::XdgSurface => match op {
            1 | 4 => 4,
            2 => 12,
            3 => 16,
            _ => 0,
        },
        ObjectType::XdgToplevel => match op {
            1 | 2 | 3 | 11 => 4,
            4 => 16,
            5 | 7 | 8 => 8,
            6 => 12,
            _ => 0,
        },
        ObjectType::XdgPopup => if op == 0 {
            0
        } else {
            8
        },
        ObjectType::XdgPositioner => if op == 0 {
            0
        } else {
            4 * xdg_positioner::positioner_words(op)
        },
        ObjectType::WpPresentation | ObjectType::WpViewporter => if op == 0 {
            0
        } else {
            8
        },
        ObjectType::WpViewport => match op {
            1 => 16,
            2 => 8,
            _ => 0,
        },
        ObjectType::WlShm => 8,
        ObjectType::WlShmPool => match op {
            0 => 24,
            2 => 4,
            _ => 0,
        },
        ObjectType::ZwpLinuxBufferParams => match op {
            1 => 20,
            2 => 16,
            3 => 20,
            _ => 0,
        },
        _ => 0,
    }
}

/// The strings among a request's arguments are all there, and so is what comes
/// after them.
pub open spec fn strings_decode(object_type: ObjectType, r: Request) -> bool {
    match object_type {
        ObjectType::WlRegistry => wire::string_at(r.args, 4) matches Some((_, n)) && r.args.len()
            >= 12 + n,
        ObjectType::WlDataSource => r.op == wl_data_source::OFFER ==> wire::string_at(r.args, 0)
            is Some,
        ObjectType::WlDataOffer => {
            &&& r.op == wl_data_offer::ACCEPT ==> wire::string_or_null_at(r.args, 4) is Some
            &&& r.op == wl_data_offer::RECEIVE ==> wire::string_at(r.args, 0) is Some
        },
        ObjectType::XdgToplevel => r.op == xdg_toplevel::SET_TITLE || r.op
            == xdg_toplevel::SET_APP_ID ==> wire::string_at(r.args, 0) is Some,
        _ => true,
    }
}

/// An interface turns down a request that is short of its arguments.
#[verifier::spinoff_prover]
#[verifier::rlimit(60)]
proof fn lemma_dispatch_turns_down(
    s: State,
    r: Request,
    fds: Seq<Fd>,
    outside: Outside,
    object_type: ObjectType,
)
    requires
        s.knows(r.client),
        r.op < request_count(object_type),
        r.args.len() < argument_bytes(object_type, r.op) || !strings_decode(object_type, r),
    ensures
        s.dispatched(object_type, r, fds, outside).clients[r.client].cancelled,
{
    state::lemma_closing_only_closes(fds);
    reveal(State::dispatched);
}

/// A client that makes a request short of its arguments is disconnected, whether
/// or not the compositor has any use for them.
pub proof fn law_requests_short_of_their_arguments_disconnect(
    s: State,
    r: Request,
    outside: Outside,
    object_type: ObjectType,
)
    requires
        s.type_of(r.client, r.object) == Some(object_type),
        r.op < request_count(object_type),
        r.args.len() < argument_bytes(object_type, r.op) || !strings_decode(object_type, r),
    ensures
        s.message_handled(r, outside).clients[r.client].cancelled,
{
    let client = s.clients[r.client];
    let count = fd_count(object_type, r.op);
    if client.fd_queue.len() >= count {
        let claimed = s.with_client(
            r.client,
            ClientView { fd_queue: client.fd_queue.skip(count as int), ..client },
        );
        lemma_dispatch_turns_down(
            claimed,
            r,
            client.fd_queue.take(count as int),
            outside,
            object_type,
        );
    }
}

/// A client that is not there is not heard.
pub proof fn law_nobody_is_not_heard(s: State, r: Request, outside: Outside)
    requires
        !s.knows(r.client),
    ensures
        s.message_handled(r, outside) == s,
{
}

} // verus!

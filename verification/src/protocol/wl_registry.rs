//! `wl_registry` protocol handler.
//!
//! Advertises available globals to clients and handles bind requests,
//! which create new protocol objects for specific interfaces (`wl_shm`,
//! `wl_compositor`, `xdg_wm_base`, etc.).

use crate::client::{self, ObjectType};
use crate::protocol::{
    unknown_request, wl_output, wl_seat, wl_shm, wp_presentation, zwp_linux_dmabuf,
};
use crate::seqs;
use crate::shared::OutputId;
use crate::state::{self, CompositorState, State, GLOBALS_COUNT};
use crate::table;
use crate::text;
use crate::wire::{
    self, build_message, tell1, ArgReader, ArgWriter, Message, Request,
    WaylandProtocolMessageWithClientInfo,
};
use crate::workspace::ClientObjectId;
use vstd::prelude::*;

verus! {

/// A global interface that clients can bind via `wl_registry`.
pub struct Global {
    pub interface: &'static str,
    pub version: u32,
}

/// The `wl_output` version there is. Displays are advertised as they come, one
/// global per physical output, rather than being among the globals that are
/// always there.
pub const WL_OUTPUT_VERSION: u32 = 4;

// Request opcodes
pub const BIND: u16 = 0;

// Event opcodes
pub const GLOBAL: u16 = 0;

pub const GLOBAL_REMOVE: u16 = 1;

/// What the globals that are always there are called.
pub open spec fn global_interface(name: int) -> Seq<char> {
    if name == 0 {
        "wl_compositor"@
    } else if name == 1 {
        "wl_subcompositor"@
    } else if name == 2 {
        "wl_data_device_manager"@
    } else if name == 3 {
        "wl_shm"@
    } else if name == 4 {
        "wl_seat"@
    } else if name == 5 {
        "xdg_wm_base"@
    } else if name == 6 {
        "xdg_system_bell_v1"@
    } else if name == 7 {
        "wp_viewporter"@
    } else {
        "wp_presentation"@
    }
}

/// Which version of each there is.
pub open spec fn global_version(name: int) -> u32 {
    if name == 0 || name == 5 {
        5
    } else if name == 2 {
        3
    } else if name == 4 {
        8
    } else {
        1
    }
}

/// What binding each gives a client.
pub open spec fn global_type(name: int) -> ObjectType {
    if name == 0 {
        ObjectType::WlCompositor
    } else if name == 1 {
        ObjectType::WlSubcompositor
    } else if name == 2 {
        ObjectType::WlDataDeviceManager
    } else if name == 3 {
        ObjectType::WlShm
    } else if name == 4 {
        ObjectType::WlSeat
    } else if name == 5 {
        ObjectType::XdgWmBase
    } else if name == 6 {
        ObjectType::XdgSystemBell
    } else if name == 7 {
        ObjectType::WpViewporter
    } else {
        ObjectType::WpPresentation
    }
}

/// The names of the globals that are always there.
pub open spec fn static_names() -> Seq<u32> {
    Seq::new(GLOBALS_COUNT as nat, |i: int| i as u32)
}

/// One of the globals that are always there. They are available to all clients
/// and live for the entire lifetime of the compositor.
pub fn global(name: u32) -> (r: Option<Global>)
    ensures
        r is Some == (name < GLOBALS_COUNT),
        r matches Some(g) ==> g.interface@ == global_interface(name as int) && g.version
            == global_version(name as int) && g.interface@.len() <= 0x1000,
{
    proof {
        reveal_strlit("wl_compositor");
        reveal_strlit("wl_subcompositor");
        reveal_strlit("wl_data_device_manager");
        reveal_strlit("wl_shm");
        reveal_strlit("wl_seat");
        reveal_strlit("xdg_wm_base");
        reveal_strlit("xdg_system_bell_v1");
        reveal_strlit("wp_viewporter");
        reveal_strlit("wp_presentation");
    }
    match name {
        0 => Some(Global { interface: "wl_compositor", version: 5 }),
        1 => Some(Global { interface: "wl_subcompositor", version: 1 }),
        2 => Some(Global { interface: "wl_data_device_manager", version: 3 }),
        3 => Some(Global { interface: "wl_shm", version: 1 }),
        4 => Some(Global { interface: "wl_seat", version: 8 }),
        5 => Some(Global { interface: "xdg_wm_base", version: 5 }),
        6 => Some(Global { interface: "xdg_system_bell_v1", version: 1 }),
        7 => Some(Global { interface: "wp_viewporter", version: 1 }),
        8 => Some(Global { interface: "wp_presentation", version: 1 }),
        _ => None,
    }
}

/// What binding a global that is always there gives a client.
fn object_type_of(name: u32) -> (r: ObjectType)
    ensures
        r == global_type(name as int),
{
    match name {
        0 => ObjectType::WlCompositor,
        1 => ObjectType::WlSubcompositor,
        2 => ObjectType::WlDataDeviceManager,
        3 => ObjectType::WlShm,
        4 => ObjectType::WlSeat,
        5 => ObjectType::XdgWmBase,
        6 => ObjectType::XdgSystemBell,
        7 => ObjectType::WpViewporter,
        _ => ObjectType::WpPresentation,
    }
}

/// `wl_registry.global`
pub open spec fn global_event(registry: u32, name: u32, interface: Seq<char>, version: u32) -> Message {
    wire::event(
        registry,
        GLOBAL,
        Seq::empty() + wire::le_bytes(name) + wire::string_bytes(interface) + wire::le_bytes(
            version,
        ),
    )
}

/// Tell a registry of a global that is always there.
pub open spec fn telling_static(key: ClientObjectId) -> spec_fn(State, u32) -> State {
    |s: State, name: u32|
        s.global_told(key, name, global_interface(name as int), global_version(name as int))
}

/// Tell a registry of a display.
pub open spec fn telling_output(key: ClientObjectId) -> spec_fn(State, OutputId) -> State {
    |s: State, id: OutputId|
        s.global_told(key, s.output_global_names[id], "wl_output"@, WL_OUTPUT_VERSION)
}

/// Tell a registry of a global that has appeared.
pub open spec fn announcing(name: u32, interface: Seq<char>, version: u32) -> spec_fn(
    State,
    ClientObjectId,
) -> State {
    |s: State, key: ClientObjectId| s.global_told(key, name, interface, version)
}

/// Tell a registry of a global that has gone.
pub open spec fn withdrawing(name: u32) -> spec_fn(State, ClientObjectId) -> State {
    |s: State, key: ClientObjectId| s.sent(key.0, wire::told1(key.1, GLOBAL_REMOVE, name))
}

/// An output that goes by a name.
pub open spec fn going_by(names: Map<OutputId, u32>, name: u32) -> spec_fn(OutputId) -> bool {
    |id: OutputId| names[id] == name
}

/// What a client is told that binds something there is not.
pub open spec fn unknown_global_text(name: u32) -> Seq<char> {
    "wl_registry.bind: unknown global name "@ + text::decimal(name as nat) + ""@
}

/// The lower of two versions.
pub open spec fn lower(a: u32, b: u32) -> u32 {
    if a < b {
        a
    } else {
        b
    }
}

impl State {
    /// The state once a registry knows of a global.
    pub open spec fn global_told(
        self,
        key: ClientObjectId,
        name: u32,
        interface: Seq<char>,
        version: u32,
    ) -> Self {
        self.sent(key.0, global_event(key.1, name, interface, version))
    }

    /// The state once a registry knows of dma-buf support, if there is any.
    pub open spec fn dmabuf_told(self, key: ClientObjectId) -> Self {
        match self.dmabuf_global_name {
            Some(name) => self.global_told(
                key,
                name,
                "zwp_linux_dmabuf_v1"@,
                zwp_linux_dmabuf::VERSION,
            ),
            None => self,
        }
    }

    /// The state once a registry knows of everything there is.
    pub open spec fn globals_told(self, client_id: u32, registry_id: u32) -> Self {
        let key = (client_id, registry_id);
        let s = state::each(self, static_names(), telling_static(key)).dmabuf_told(key);
        state::each(s, table::ordered(s.output_global_names.dom()), telling_output(key))
    }

    /// The state once every client knows of a global that has appeared.
    pub open spec fn global_broadcast(self, name: u32, interface: Seq<char>, version: u32) -> Self {
        state::each(
            self,
            client::holders(self.clients, ObjectType::WlRegistry),
            announcing(name, interface, version),
        )
    }

    /// The state once every client knows of a global that has gone.
    pub open spec fn global_withdrawn(self, name: u32) -> Self {
        state::each(
            self,
            client::holders(self.clients, ObjectType::WlRegistry),
            withdrawing(name),
        )
    }

    /// The output that goes by a name.
    pub open spec fn output_going_by(self, name: u32) -> Option<OutputId> {
        let ids = table::ordered(self.output_global_names.dom());
        match seqs::first(ids, going_by(self.output_global_names, name)) {
            Some(i) => Some(ids[i]),
            None => None,
        }
    }

    /// The state once a client has been told what there is to know of what it
    /// has just bound.
    pub open spec fn bound_told(self, client_id: u32, id: u32, object_type: ObjectType) -> Self {
        match object_type {
            ObjectType::WlShm => if self.knows(client_id) {
                self.with_client(client_id, self.clients[client_id].shm_formats_told(id))
            } else {
                self
            },
            ObjectType::WlSeat => self.seat_told(client_id, id),
            ObjectType::WpPresentation => self.clock_told(client_id, id),
            _ => self,
        }
    }

    /// The state once a client has bound a global.
    pub open spec fn global_bound(self, r: Request, name: u32, version: u32, id: u32) -> Self {
        if name < GLOBALS_COUNT {
            let object_type = global_type(name as int);
            let s = self.registered_with_version(
                r.client,
                id,
                object_type,
                lower(version, global_version(name as int)),
            );
            if self.can_register(r.client, id) {
                s.bound_told(r.client, id, object_type)
            } else {
                s
            }
        } else if self.dmabuf_global_name == Some(name) {
            let s = self.registered_with_version(
                r.client,
                id,
                ObjectType::ZwpLinuxDmabuf,
                lower(version, zwp_linux_dmabuf::VERSION),
            );
            if self.can_register(r.client, id) {
                s.formats_told(r.client, id)
            } else {
                s
            }
        } else {
            match self.output_going_by(name) {
                Some(output) => {
                    let s = self.registered_with_version(
                        r.client,
                        id,
                        ObjectType::WlOutput,
                        lower(version, WL_OUTPUT_VERSION),
                    );
                    if self.can_register(r.client, id) {
                        State {
                            output_bindings: s.output_bindings.insert((r.client, id), output),
                            ..s
                        }.output_told((r.client, id), output)
                    } else {
                        s
                    }
                },
                None => self.errored(r.client, r.object, 0, unknown_global_text(name)),
            }
        }
    }

    /// The state once a client has asked to bind a global.
    pub open spec fn bind_asked(self, r: Request) -> Self {
        let malformed = self.errored(
            r.client,
            r.object,
            0,
            "wl_registry.bind: malformed args"@,
        );
        match (r.word(0), wire::string_at(r.args, 4)) {
            (Some(name), Some((_, n))) => match (r.word(4 + n as int), r.word(8 + n as int)) {
                (Some(version), Some(id)) => self.global_bound(r, name, version, id),
                _ => malformed,
            },
            _ => malformed,
        }
    }

    /// The state once a `wl_registry` request has been handled.
    pub open spec fn wl_registry_handled(self, r: Request) -> Self {
        if r.op == BIND {
            self.bind_asked(r)
        } else {
            self.rejected(r, "wl_registry"@)
        }
    }
}

pub fn handle(state: &mut CompositorState, msg: &WaylandProtocolMessageWithClientInfo)
    requires
        old(state).wf(),
    ensures
        final(state).wf(),
        final(state)@ == old(state)@.wl_registry_handled(msg@),
{
    proof {
        reveal_strlit("wl_registry");
    }
    match msg.message.op_code {
        BIND => handle_bind(state, msg),
        _ => unknown_request(state, msg, "wl_registry"),
    }
}

fn min_version(a: u32, b: u32) -> (r: u32)
    ensures
        r == lower(a, b),
{
    if a < b {
        a
    } else {
        b
    }
}

fn handle_bind(state: &mut CompositorState, msg: &WaylandProtocolMessageWithClientInfo)
    requires
        old(state).wf(),
    ensures
        final(state).wf(),
        final(state)@ == old(state)@.bind_asked(msg@),
{
    let mut args = ArgReader::new(msg.message.args.as_slice());
    // bind args: u32 name, str interface, u32 version, u32 new_id
    let (name, interface, version, id) = (args.u32(), args.string(), args.u32(), args.new_id());
    match (name, interface, version, id) {
        (Some(name), Some(_), Some(version), Some(id)) => bind(state, msg, name, version, id),
        _ => {
            proof {
                reveal_strlit("wl_registry.bind: malformed args");
            }
            state.fail(
                msg.client_id,
                msg.message.object_id,
                0,
                "wl_registry.bind: malformed args",
            );
        },
    }
}

/// The output that goes by a name.
fn output_going_by(state: &CompositorState, name: u32) -> (r: Option<OutputId>)
    requires
        state.wf(),
    ensures
        r == state@.output_going_by(name),
{
    let ids = state.output_global_names.keys();
    let ghost p = going_by(state@.output_global_names, name);
    let mut i: usize = 0;
    while i < ids.len()
        invariant
            state.wf(),
            i <= ids@.len(),
            p == going_by(state@.output_global_names, name),
            table::lists(ids@, state@.output_global_names.dom()),
            ids@ == table::ordered(state@.output_global_names.dom()),
            forall|j: int| 0 <= j < i ==> !p(#[trigger] ids@[j]),
        decreases ids@.len() - i,
    {
        let id = ids[i];
        assert(ids@.contains(id));
        if let Some(n) = state.output_global_names.get(id) {
            if *n == name {
                proof {
                    seqs::lemma_first(ids@, p, i as int);
                }
                return Some(id);
            }
        }
        i = i + 1;
    }
    proof {
        seqs::lemma_first_none(ids@, p);
    }
    None
}

fn bind(
    state: &mut CompositorState,
    msg: &WaylandProtocolMessageWithClientInfo,
    name: u32,
    version: u32,
    id: u32,
)
    requires
        old(state).wf(),
    ensures
        final(state).wf(),
        final(state)@ == old(state)@.global_bound(msg@, name, version, id),
{
    let client_id: u32 = msg.client_id;
    // The globals that are always there come first.
    if let Some(global) = global(name) {
        let object_type = object_type_of(name);
        let bound: u32 = min_version(version, global.version);
        if state.register_with_version(client_id, id, object_type, bound) {
            send_bound(state, client_id, id, object_type);
        }
        return ;
    }
    let dmabuf = match state.dmabuf_global_name {
        Some(n) => n == name,
        None => false,
    };
    if dmabuf {
        let bound: u32 = min_version(version, zwp_linux_dmabuf::VERSION);
        if state.register_with_version(client_id, id, ObjectType::ZwpLinuxDmabuf, bound) {
            zwp_linux_dmabuf::send_formats(state, client_id, id);
        }
        return ;
    }
    match output_going_by(state, name) {
        Some(output) => {
            // A display - bind to that one.
            let bound: u32 = min_version(version, WL_OUTPUT_VERSION);
            if state.register_with_version(client_id, id, ObjectType::WlOutput, bound) {
                state.output_bindings.insert((client_id, id), output);
                wl_output::send_output_info(state, client_id, id, output);
            }
        },
        None => {
            let digits = text::decimal_text(name);
            let reason = text::joined(
                "wl_registry.bind: unknown global name ",
                digits.as_str(),
                "",
            );
            proof {
                reveal_strlit("wl_registry.bind: unknown global name ");
                reveal_strlit("");
            }
            state.fail(client_id, msg.message.object_id, 0, reason.as_str());
        },
    }
}

/// Tell a client what there is to know of what it has just bound.
fn send_bound(state: &mut CompositorState, client_id: u32, id: u32, object_type: ObjectType)
    requires
        old(state).wf(),
    ensures
        final(state).wf(),
        final(state)@ == old(state)@.bound_told(client_id, id, object_type),
{
    match object_type {
        ObjectType::WlShm => {
            if let Some(client) = state.clients.get(client_id) {
                wl_shm::send_formats(client, id);
            }
        },
        ObjectType::WlSeat => wl_seat::send_seat_info(state, client_id, id),
        ObjectType::WpPresentation => wp_presentation::send_clock_id(state, client_id, id),
        _ => {},
    }
}

/// Send `wl_registry.global`.
fn send_global(
    state: &mut CompositorState,
    key: ClientObjectId,
    name: u32,
    interface: &str,
    version: u32,
)
    requires
        old(state).wf(),
        interface@.len() <= 0x1000,
    ensures
        final(state).wf(),
        final(state)@ == old(state)@.global_told(key, name, interface@, version),
{
    proof {
        text::lemma_encoded_len(interface@);
    }
    let args = ArgWriter::new().u32(name).string(interface).u32(version).build();
    state.send(key.0, build_message(key.1, GLOBAL, args));
}

/// Send `wl_registry.global` events for the globals that are always there, for
/// dma-buf support and for the displays.
pub fn advertise_globals(state: &mut CompositorState, client_id: u32, registry_id: u32)
    requires
        old(state).wf(),
    ensures
        final(state).wf(),
        final(state)@ == old(state)@.globals_told(client_id, registry_id),
{
    let key = (client_id, registry_id);
    let ghost start = state@;
    let ghost names = static_names();
    let mut name: u32 = 0;
    proof {
        state::lemma_each_ends(start, names, telling_static(key));
    }
    while name < GLOBALS_COUNT
        invariant
            state.wf(),
            name <= GLOBALS_COUNT,
            names == static_names(),
            state@ == state::each(start, names.take(name as int), telling_static(key)),
        decreases GLOBALS_COUNT - name,
    {
        proof {
            state::lemma_each_step(start, names, telling_static(key), name as int);
            assert(names[name as int] == name);
        }
        if let Some(global) = global(name) {
            send_global(state, key, name, global.interface, global.version);
        }
        name = name + 1;
    }
    // Advertised only once the backend has said it can import one, which may
    // be after this client connected - hence the broadcast path as well.
    if let Some(name) = state.dmabuf_global_name {
        proof {
            reveal_strlit("zwp_linux_dmabuf_v1");
        }
        send_global(state, key, name, "zwp_linux_dmabuf_v1", zwp_linux_dmabuf::VERSION);
    }
    // One per physical output
    let ids = state.output_global_names.keys();
    let ghost before = state@;
    let mut i: usize = 0;
    proof {
        reveal_strlit("wl_output");
        state::lemma_each_ends(before, ids@, telling_output(key));
    }
    while i < ids.len()
        invariant
            state.wf(),
            i <= ids@.len(),
            "wl_output"@.len() <= 0x1000,
            table::lists(ids@, before.output_global_names.dom()),
            state@.output_global_names == before.output_global_names,
            state@ == state::each(before, ids@.take(i as int), telling_output(key)),
        decreases ids@.len() - i,
    {
        proof {
            assert(ids@.contains(ids@[i as int]));
            state::lemma_each_step(before, ids@, telling_output(key), i as int);
        }
        if let Some(name) = state.output_global_names.get(ids[i]) {
            let name: u32 = *name;
            send_global(state, key, name, "wl_output", WL_OUTPUT_VERSION);
        }
        i = i + 1;
    }
}

/// Broadcast a global that has appeared since the clients did.
///
/// Most globals exist before any client connects and are listed in
/// [`advertise_globals`]. Some cannot: an output arrives when the display is
/// plugged in, and dma-buf support is only known once the backend has a GL
/// context to ask. Those are announced to whoever is already connected here,
/// and by [`advertise_globals`] to whoever connects later.
pub fn broadcast_global(state: &mut CompositorState, global_name: u32, interface: &str, version: u32)
    requires
        old(state).wf(),
        interface@.len() <= 0x1000,
    ensures
        final(state).wf(),
        final(state)@ == old(state)@.global_broadcast(global_name, interface@, version),
{
    let registries = state.clients.holders_of(ObjectType::WlRegistry);
    let ghost start = state@;
    let ghost f = announcing(global_name, interface@, version);
    let mut i: usize = 0;
    proof {
        state::lemma_each_ends(start, registries@, f);
    }
    while i < registries.len()
        invariant
            state.wf(),
            i <= registries@.len(),
            interface@.len() <= 0x1000,
            f == announcing(global_name, interface@, version),
            state@ == state::each(start, registries@.take(i as int), f),
        decreases registries@.len() - i,
    {
        proof {
            state::lemma_each_step(start, registries@, f, i as int);
        }
        send_global(state, registries[i], global_name, interface, version);
        i = i + 1;
    }
}

/// Broadcast that a global has gone.
pub fn broadcast_global_remove(state: &mut CompositorState, global_name: u32)
    requires
        old(state).wf(),
    ensures
        final(state).wf(),
        final(state)@ == old(state)@.global_withdrawn(global_name),
{
    let registries = state.clients.holders_of(ObjectType::WlRegistry);
    let ghost start = state@;
    let mut i: usize = 0;
    proof {
        state::lemma_each_ends(start, registries@, withdrawing(global_name));
    }
    while i < registries.len()
        invariant
            state.wf(),
            i <= registries@.len(),
            state@ == state::each(start, registries@.take(i as int), withdrawing(global_name)),
        decreases registries@.len() - i,
    {
        proof {
            state::lemma_each_step(start, registries@, withdrawing(global_name), i as int);
        }
        let (client_id, registry_id): (u32, u32) = registries[i];
        state.send(client_id, tell1(registry_id, GLOBAL_REMOVE, global_name));
        i = i + 1;
    }
}

} // verus!

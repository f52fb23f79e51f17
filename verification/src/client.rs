//! Per-client connection state.
//!
//! Each connected client gets a [`ClientState`] tracking its object map (id ->
//! [`ObjectType`]) and the messages waiting to be written to its socket. The
//! [`Clients`] struct manages the collection of all active client states.

use crate::seqs;
use crate::table::{self, Table};
use crate::text;
use crate::wire::{self, build_message, ArgWriter, Fd, Message, WaylandProtocolMessage};
use vstd::prelude::*;
use vstd::utf8::encode_utf8;

verus! {

/// The first object id the compositor may hand out.
///
/// Wayland splits the id space: a client allocates from below this line and the
/// compositor from above it, so neither has to ask the other what is free. The
/// halves are why `wl_display.delete_id` exists only for the client's own ids -
/// the compositor recycles its own without telling anyone.
pub const SERVER_ID_BASE: u32 = 0xff00_0000;

/// The object every client starts out with.
pub const DISPLAY_OBJECT_ID: u32 = 1;

/// `wl_display.error`
pub const DISPLAY_ERROR: u16 = 0;

/// `wl_display.delete_id`
pub const DISPLAY_DELETE_ID: u16 = 1;

/// An id belongs to the compositor's half of the id space.
pub open spec fn server_id(id: u32) -> bool {
    id >= SERVER_ID_BASE
}

/// Whether an object id belongs to the compositor's half of the id space.
pub fn is_server_id(id: u32) -> (r: bool)
    ensures
        r == server_id(id),
{
    id >= SERVER_ID_BASE
}

/// The type of a Wayland protocol object.
#[derive(Debug, Clone, Copy, PartialEq, Eq, Structural)]
pub enum ObjectType {
    WlDisplay,
    WlRegistry,
    WlCallback,
    WlShm,
    WlShmPool,
    WlBuffer,
    WlCompositor,
    WlSurface,
    WlRegion,
    WlSeat,
    WlPointer,
    WlKeyboard,
    WlTouch,
    WlOutput,
    WlSubcompositor,
    WlSubsurface,
    WlDataDeviceManager,
    WlDataDevice,
    WlDataSource,
    WlDataOffer,
    WlFixes,
    XdgWmBase,
    XdgSurface,
    XdgSystemBell,
    XdgToplevel,
    XdgPopup,
    XdgPositioner,
    WpPresentation,
    WpPresentationFeedback,
    WpViewporter,
    WpViewport,
    ZwpLinuxDmabuf,
    ZwpLinuxBufferParams,
}

impl View for ObjectType {
    type V = ObjectType;

    open spec fn view(&self) -> ObjectType {
        *self
    }
}

/// State specific to an individual wayland client
pub struct ClientState {
    /// Maps object id -> object type/state for every object this client has created.
    pub objects: Table<u32, ObjectType>,
    /// Maps object id -> bound interface version for version-gated events.
    pub object_versions: Table<u32, u32>,
    /// Messages to be written to this client's socket, oldest first.
    pub outbox: Vec<WaylandProtocolMessage>,
    /// How many more messages the socket's queue will take.
    pub room: u32,
    /// The socket is still there to write to.
    pub open: bool,
    /// The client is to be disconnected. Set when the client stops draining
    /// its socket and its outgoing queue overflows, and with every error.
    pub cancelled: bool,
    /// File descriptors that have arrived from this client and that no request
    /// has claimed, oldest first.
    pub fd_queue: Vec<Fd>,
    /// File descriptors that went down with a message that could not be sent,
    /// for their owner to close.
    pub closing: Vec<Fd>,
    /// Next id to hand out from the compositor's half of the id space.
    pub next_server_id: u32,
}

/// What a client has and is owed.
#[verifier::ext_equal]
pub struct ClientView {
    pub objects: Map<u32, ObjectType>,
    pub versions: Map<u32, u32>,
    pub outbox: Seq<Message>,
    pub room: u32,
    pub open: bool,
    pub cancelled: bool,
    pub fd_queue: Seq<Fd>,
    pub closing: Seq<Fd>,
    pub next_server_id: u32,
}

impl View for ClientState {
    type V = ClientView;

    open spec fn view(&self) -> ClientView {
        ClientView {
            objects: self.objects@,
            versions: self.object_versions@,
            outbox: messages(self.outbox@),
            room: self.room,
            open: self.open,
            cancelled: self.cancelled,
            fd_queue: self.fd_queue@,
            closing: self.closing@,
            next_server_id: self.next_server_id,
        }
    }
}

/// What some messages say.
pub open spec fn messages(s: Seq<WaylandProtocolMessage>) -> Seq<Message> {
    s.map_values(|m: WaylandProtocolMessage| m@)
}

/// The text of the error for reusing an id that is still live.
pub open spec fn in_use_text(id: u32) -> Seq<char> {
    "object id "@ + text::decimal(id as nat) + " is already in use"@
}

/// `wl_display.error`, saying what is wrong with an object.
pub open spec fn error_event(object_id: u32, code: u32, msg: Seq<char>) -> Message {
    wire::event(
        DISPLAY_OBJECT_ID,
        DISPLAY_ERROR,
        wire::le_bytes(object_id) + wire::le_bytes(code) + wire::string_bytes(msg),
    )
}

/// `wl_display.delete_id`, saying an id may be used again.
pub open spec fn delete_id_event(id: u32) -> Message {
    wire::event(DISPLAY_OBJECT_ID, DISPLAY_DELETE_ID, wire::le_bytes(id))
}

impl ClientView {
    /// A client that has just connected has its display and nothing else.
    pub open spec fn fresh(room: u32) -> Self {
        ClientView {
            objects: Map::empty().insert(DISPLAY_OBJECT_ID, ObjectType::WlDisplay),
            versions: Map::empty(),
            outbox: Seq::empty(),
            room,
            open: true,
            cancelled: false,
            fd_queue: Seq::empty(),
            closing: Seq::empty(),
            next_server_id: SERVER_ID_BASE,
        }
    }

    /// A message can be queued for this client.
    pub open spec fn takes(self) -> bool {
        self.open && self.room > 0
    }

    /// The client once a message has been offered to its queue. A full queue
    /// drops the client; a message that is not queued gives up its descriptors.
    pub open spec fn sent(self, m: Message) -> Self {
        if self.takes() {
            ClientView { outbox: self.outbox.push(m), room: (self.room - 1) as u32, ..self }
        } else {
            ClientView {
                cancelled: self.cancelled || self.open,
                closing: self.closing + m.fds,
                ..self
            }
        }
    }

    /// The client once it has been told of an error: told, and disconnected.
    pub open spec fn errored(self, object_id: u32, code: u32, msg: Seq<char>) -> Self {
        ClientView { cancelled: true, ..self.sent(error_event(object_id, code, msg)) }
    }

    /// An id the client may give to a new object.
    pub open spec fn free(self, id: u32) -> bool {
        !self.objects.contains_key(id)
    }

    /// The client with an object of its own naming, or told that the name is
    /// taken.
    pub open spec fn registered(self, id: u32, object_type: ObjectType) -> Self {
        if self.free(id) {
            ClientView { objects: self.objects.insert(id, object_type), ..self }
        } else {
            self.errored(id, 0, in_use_text(id))
        }
    }

    /// The same, with the version the object speaks.
    pub open spec fn registered_with_version(
        self,
        id: u32,
        object_type: ObjectType,
        version: u32,
    ) -> Self {
        let r = self.registered(id, object_type);
        if self.free(id) {
            ClientView { versions: r.versions.insert(id, version), ..r }
        } else {
            r
        }
    }

    /// There is an id left in the compositor's half.
    pub open spec fn can_allocate(self) -> bool {
        self.next_server_id != u32::MAX
    }

    /// The client with an object of the compositor's naming.
    pub open spec fn allocated(self, object_type: ObjectType) -> Self {
        if self.can_allocate() {
            ClientView {
                objects: self.objects.insert(self.next_server_id, object_type),
                next_server_id: (self.next_server_id + 1) as u32,
                ..self
            }
        } else {
            self
        }
    }

    /// The same, with the version the object speaks.
    pub open spec fn allocated_with_version(self, object_type: ObjectType, version: u32) -> Self {
        let r = self.allocated(object_type);
        if self.can_allocate() {
            ClientView { versions: r.versions.insert(self.next_server_id, version), ..r }
        } else {
            r
        }
    }

    /// The objects of a type, in order.
    pub open spec fn objects_typed(self, object_type: ObjectType) -> Seq<u32> {
        table::ordered(self.objects.dom()).filter(typed(self.objects, object_type))
    }

    /// The version an object speaks: 1 unless another was recorded.
    pub open spec fn version(self, id: u32) -> u32 {
        if self.versions.contains_key(id) {
            self.versions[id]
        } else {
            1
        }
    }

    /// The client once an object is gone. Only an id of its own is announced.
    pub open spec fn unregistered(self, id: u32) -> Self {
        let r = ClientView {
            objects: self.objects.remove(id),
            versions: self.versions.remove(id),
            ..self
        };
        if server_id(id) {
            r
        } else {
            r.sent(delete_id_event(id))
        }
    }
}

/// Add descriptors behind the ones there are.
pub fn append_fds(to: &mut Vec<Fd>, fds: &Vec<Fd>)
    ensures
        final(to)@ == old(to)@ + fds@,
{
    let mut i: usize = 0;
    while i < fds.len()
        invariant
            i <= fds@.len(),
            to@ == old(to)@ + fds@.take(i as int),
        decreases fds@.len() - i,
    {
        to.push(fds[i]);
        assert(fds@.take(i as int + 1) =~= fds@.take(i as int).push(fds@[i as int]));
        i = i + 1;
    }
    assert(fds@.take(i as int) =~= fds@);
}

impl ClientState {
    /// The tables are in order.
    pub open spec fn wf(&self) -> bool {
        self.objects.wf() && self.object_versions.wf()
    }

    /// Create a new client state for a socket whose queue has room for so many
    /// messages
    pub fn new(room: u32) -> (r: Self)
        ensures
            r.wf(),
            r@ == ClientView::fresh(room),
    {
        let mut objects: Table<u32, ObjectType> = Table::new();
        objects.insert(DISPLAY_OBJECT_ID, ObjectType::WlDisplay);
        let r = Self {
            objects,
            object_versions: Table::new(),
            outbox: Vec::new(),
            room,
            open: true,
            cancelled: false,
            fd_queue: Vec::new(),
            closing: Vec::new(),
            next_server_id: SERVER_ID_BASE,
        };
        assert(r@.outbox =~= Seq::empty());
        r
    }

    /// Register a newly created object.
    ///
    /// Returns `Err` if the client is reusing an id that is still live. Clients
    /// must not reuse an object id until the compositor has acknowledged its
    /// destruction with `wl_display.delete_id`, so this is a protocol error.
    /// Silently replacing the old object strands whatever compositor state it
    /// owned: a mapped shm pool, a surface in the stack, a pointer or keyboard
    /// binding. Those are keyed by object id, so the replacement makes them
    /// unreachable and the disconnect-time cleanup no longer knows they exist.
    ///
    /// The client is sent an error and dropped, so callers only need to stop
    /// what they were doing. Returning `Result` rather than handling it
    /// silently is deliberate: a call site that forgets to bail out is a
    /// compiler warning rather than a latent leak.
    pub fn register(&mut self, id: u32, object_type: ObjectType) -> (r: Result<(), ()>)
        requires
            old(self).wf(),
        ensures
            final(self).wf(),
            final(self)@ == old(self)@.registered(id, object_type),
            r is Ok <==> old(self)@.free(id),
    {
        if self.objects.contains_key(id) {
            let digits = text::decimal_text(id);
            let msg = text::joined("object id ", digits.as_str(), " is already in use");
            proof {
                reveal_strlit("object id ");
                reveal_strlit(" is already in use");
            }
            self.send_error(id, 0, msg.as_str());
            return Err(());
        }
        self.objects.insert(id, object_type);
        Ok(())
    }

    /// Take the next id from the compositor's half of the id space and
    /// register an object under it.
    ///
    /// Used where the protocol has the compositor name an object rather than
    /// the client - `zwp_linux_buffer_params_v1.created` carries a `wl_buffer`
    /// the compositor allocates. `None` once the half is exhausted, which takes
    /// sixteen million objects on one connection and is a client with a leak.
    pub fn allocate_id(&mut self, object_type: ObjectType) -> (r: Option<u32>)
        requires
            old(self).wf(),
        ensures
            final(self).wf(),
            final(self)@ == old(self)@.allocated(object_type),
            r == if old(self)@.can_allocate() {
                Some(old(self)@.next_server_id)
            } else {
                None
            },
    {
        let id: u32 = self.next_server_id;
        if id == u32::MAX {
            return None;
        }
        self.next_server_id = id + 1;
        self.objects.insert(id, object_type);
        Some(id)
    }

    /// Take the next id from the compositor's half and record a version for it.
    ///
    /// A compositor-named object still has a version, and it is the version of
    /// whatever created it - a `wl_data_offer` speaks the version its
    /// `wl_data_device` was bound at. Without this the object would default to
    /// version 1 and every version-gated event on it would be silently
    /// suppressed, which is a failure that looks exactly like the feature not
    /// being implemented.
    pub fn allocate_id_with_version(&mut self, object_type: ObjectType, version: u32) -> (r: Option<
        u32,
    >)
        requires
            old(self).wf(),
        ensures
            final(self).wf(),
            final(self)@ == old(self)@.allocated_with_version(object_type, version),
            r == if old(self)@.can_allocate() {
                Some(old(self)@.next_server_id)
            } else {
                None
            },
    {
        match self.allocate_id(object_type) {
            Some(id) => {
                self.object_versions.insert(id, version);
                Some(id)
            },
            None => None,
        }
    }

    /// Take descriptors off the front of the queue. `None`, and nothing taken,
    /// if there are not as many.
    pub fn claim_fds(&mut self, count: usize) -> (r: Option<Vec<Fd>>)
        requires
            old(self).wf(),
        ensures
            final(self).wf(),
            r is Some == (count <= old(self)@.fd_queue.len()),
            r matches Some(fds) ==> fds@ == old(self)@.fd_queue.take(count as int) && final(self)@
                == (ClientView { fd_queue: old(self)@.fd_queue.skip(count as int), ..old(self)@ }),
            r is None ==> final(self)@ == old(self)@,
    {
        if self.fd_queue.len() < count {
            return None;
        }
        let mut fds: Vec<Fd> = Vec::new();
        let ghost queue = self.fd_queue@;
        assert(queue.skip(0) =~= queue);
        while fds.len() < count
            invariant
                self.wf(),
                count <= queue.len(),
                fds@.len() <= count,
                fds@ == queue.take(fds@.len() as int),
                self.fd_queue@ == queue.skip(fds@.len() as int),
                self@ == (ClientView { fd_queue: self.fd_queue@, ..old(self)@ }),
            decreases count - fds@.len(),
        {
            let ghost n = fds@.len() as int;
            fds.push(self.fd_queue.remove(0));
            assert(fds@ =~= queue.take(n + 1));
            assert(self.fd_queue@ =~= queue.skip(n + 1));
        }
        Some(fds)
    }

    /// The objects of a type, in order.
    pub fn objects_typed(&self, object_type: ObjectType) -> (r: Vec<u32>)
        requires
            self.wf(),
        ensures
            r@ == self@.objects_typed(object_type),
    {
        let ids = self.objects.keys();
        let ghost p = typed(self@.objects, object_type);
        let mut r: Vec<u32> = Vec::new();
        let mut i: usize = 0;
        proof {
            reveal(Seq::filter);
            assert(ids@.take(0) =~= Seq::empty());
        }
        while i < ids.len()
            invariant
                self.wf(),
                i <= ids@.len(),
                table::lists(ids@, self@.objects.dom()),
                p == typed(self@.objects, object_type),
                r@ == ids@.take(i as int).filter(p),
            decreases ids@.len() - i,
        {
            let id: u32 = ids[i];
            proof {
                assert(ids@.contains(id));
                seqs::lemma_filter_step(ids@, p, i as int);
            }
            if let Some(t) = self.objects.get(id) {
                if *t == object_type {
                    r.push(id);
                }
            }
            i = i + 1;
        }
        assert(ids@.take(i as int) =~= ids@);
        r
    }

    /// Registers a new wayland object with wayland protocol version information
    pub fn register_with_version(
        &mut self,
        id: u32,
        object_type: ObjectType,
        version: u32,
    ) -> (r: Result<(), ()>)
        requires
            old(self).wf(),
        ensures
            final(self).wf(),
            final(self)@ == old(self)@.registered_with_version(id, object_type, version),
            r is Ok <==> old(self)@.free(id),
    {
        if self.register(id, object_type).is_err() {
            return Err(());
        }
        self.object_versions.insert(id, version);
        Ok(())
    }

    /// Gets the version of an object, defaulting to 1 if the object was registered
    /// without a version #
    pub fn version(&self, id: u32) -> (r: u32)
        requires
            self.wf(),
        ensures
            r == self@.version(id),
    {
        match self.object_versions.get(id) {
            Some(v) => *v,
            None => 1,
        }
    }

    /// Unregister a wayland client object
    pub fn unregister(&mut self, id: u32)
        requires
            old(self).wf(),
        ensures
            final(self).wf(),
            final(self)@ == old(self)@.unregistered(id),
    {
        self.objects.remove(id);
        self.object_versions.remove(id);
        // Only the client's own ids are announced: it allocates those, so only
        // it needs telling one is free again. An id from the compositor's half
        // is the compositor's to recycle, and announcing it would invite the
        // client to reuse an id it never owned.
        if is_server_id(id) {
            return ;
        }
        let args = ArgWriter::new().u32(id).build();
        assert(args@ =~= wire::le_bytes(id));
        let _ = self.send(build_message(DISPLAY_OBJECT_ID, DISPLAY_DELETE_ID, args));
    }

    /// Queue a message for delivery to this client's wayland socket
    ///
    /// This never blocks. The compositor loop is single-threaded and owns all
    /// state, so awaiting a client here would let one client that has stopped
    /// reading its socket stall input, rendering, and every other client. If
    /// the outgoing queue is full we assume the client is wedged and drop it,
    /// which is the same policy libwayland applies once a client's output
    /// buffer grows past its threshold.
    ///
    /// On failure the message is dropped, which gives up any file descriptors
    /// it carried - callers do not need to clean them up.
    pub fn send(&mut self, msg: WaylandProtocolMessage) -> (r: Result<(), ()>)
        requires
            old(self).wf(),
        ensures
            final(self).wf(),
            final(self)@ == old(self)@.sent(msg@),
            r is Ok <==> old(self)@.takes(),
    {
        if !self.open {
            append_fds(&mut self.closing, &msg.fds);
            return Err(());
        }
        if self.room == 0 {
            append_fds(&mut self.closing, &msg.fds);
            self.cancelled = true;
            return Err(());
        }
        self.room = self.room - 1;
        self.outbox.push(msg);
        assert(self@.outbox =~= old(self)@.outbox.push(msg@));
        Ok(())
    }

    /// Send a `wl_display.error` to this client and disconnect it.
    ///
    /// There is no other kind. `wl_display.error` is fatal by definition - the
    /// protocol has the client disconnect on receiving one, and libwayland
    /// destroys the connection as it posts it - so the disconnect belongs here
    /// rather than at each call site. An error the compositor sent and then
    /// carried on from is the worst of both: the client is entitled to consider
    /// the connection dead, while the compositor keeps state for it and keeps
    /// answering requests it may still have in flight.
    ///
    /// A condition the client can recover from is not this. Those are
    /// interface-specific events - `zwp_linux_buffer_params_v1.failed` is one
    /// - and go out as ordinary messages.
    ///
    /// Cancelling stops this client's socket tasks; the read task then reports
    /// the disconnect, and the client's resources are cleaned up through the
    /// same path any other disconnect takes. Callers only need to stop what
    /// they were doing.
    pub fn send_error(&mut self, object_id: u32, code: u32, msg: &str)
        requires
            old(self).wf(),
            msg@.len() <= 0x1000_0000,
        ensures
            final(self).wf(),
            final(self)@ == old(self)@.errored(object_id, code, msg@),
    {
        proof {
            text::lemma_encoded_len(msg@);
        }
        let args = ArgWriter::new().u32(object_id).u32(code).string(msg).build();
        assert(args@ =~= wire::le_bytes(object_id) + wire::le_bytes(code) + wire::string_bytes(
            msg@,
        ));
        let _ = self.send(build_message(DISPLAY_OBJECT_ID, DISPLAY_ERROR, args));
        self.cancelled = true;
    }

    /// Hand over the messages waiting to be written, leaving none behind.
    pub fn take_outbox(&mut self) -> (r: Vec<WaylandProtocolMessage>)
        requires
            old(self).wf(),
        ensures
            final(self).wf(),
            messages(r@) == old(self)@.outbox,
            final(self)@ == (ClientView { outbox: Seq::empty(), ..old(self)@ }),
    {
        let mut r: Vec<WaylandProtocolMessage> = Vec::new();
        std::mem::swap(&mut r, &mut self.outbox);
        assert(self@.outbox =~= Seq::empty());
        r
    }

    /// Hand over the descriptors to be closed, leaving none behind.
    pub fn take_closing(&mut self) -> (r: Vec<Fd>)
        requires
            old(self).wf(),
        ensures
            final(self).wf(),
            r@ == old(self)@.closing,
            final(self)@ == (ClientView { closing: Seq::empty(), ..old(self)@ }),
    {
        let mut r: Vec<Fd> = Vec::new();
        std::mem::swap(&mut r, &mut self.closing);
        assert(self@.closing =~= Seq::empty());
        r
    }
}

/// An object of a type.
pub open spec fn typed(objects: Map<u32, ObjectType>, object_type: ObjectType) -> spec_fn(
    u32,
) -> bool {
    |id: u32| objects[id] == object_type
}

/// Some objects, and whose they are.
pub open spec fn owned_by(client_id: u32, ids: Seq<u32>) -> Seq<(u32, u32)> {
    Seq::new(ids.len(), |i: int| (client_id, ids[i]))
}

/// The objects of a type that some clients have.
pub open spec fn typed_of(
    clients: Map<u32, ClientView>,
    ids: Seq<u32>,
    object_type: ObjectType,
) -> Seq<(u32, u32)>
    decreases ids.len(),
{
    if ids.len() == 0 {
        Seq::empty()
    } else {
        typed_of(clients, ids.drop_last(), object_type) + owned_by(
            ids.last(),
            clients[ids.last()].objects_typed(object_type),
        )
    }
}

/// Every object of a type, client by client.
pub open spec fn holders(clients: Map<u32, ClientView>, object_type: ObjectType) -> Seq<(u32, u32)> {
    typed_of(clients, table::ordered(clients.dom()), object_type)
}

/// A collection of all clients on the compositor keyed by client id
pub struct Clients {
    /// The table
    states: Table<u32, ClientState>,
}

impl View for Clients {
    type V = Map<u32, ClientView>;

    closed spec fn view(&self) -> Map<u32, ClientView> {
        self.states@
    }
}

impl Clients {
    /// Every client's tables are in order.
    pub closed spec fn wf(&self) -> bool {
        &&& self.states.wf()
        &&& forall|k: u32| self.states.stored().contains_key(k) ==> (#[trigger] self.states.stored()[k]).wf()
    }

    /// Create a new client collection
    pub fn new() -> (r: Self)
        ensures
            r.wf(),
            r@ == Map::<u32, ClientView>::empty(),
    {
        Self { states: Table::new() }
    }

    /// Create/add a new client
    pub fn create(&mut self, client_id: u32, room: u32)
        requires
            old(self).wf(),
        ensures
            final(self).wf(),
            final(self)@ == old(self)@.insert(client_id, ClientView::fresh(room)),
    {
        let client_state = ClientState::new(room);
        self.states.insert(client_id, client_state);
    }

    /// Get a mutable client state
    pub fn get(&mut self, client_id: u32) -> (r: Option<&mut ClientState>)
        requires
            old(self).wf(),
        ensures
            r is Some == old(self)@.contains_key(client_id),
            r matches Some(c) ==> c.wf() && c@ == old(self)@[client_id],
            r matches Some(c) ==> (final(c).wf() ==> final(self).wf()),
            r matches Some(c) ==> final(self)@ == old(self)@.insert(client_id, final(c)@),
            r is None ==> final(self)@ == old(self)@ && final(self).wf(),
    {
        proof {
            self.states.lemma_stored(client_id);
        }
        self.states.get_mut(client_id)
    }

    /// Remove a client
    pub fn remove(&mut self, client_id: u32)
        requires
            old(self).wf(),
        ensures
            final(self).wf(),
            final(self)@ == old(self)@.remove(client_id),
    {
        self.states.remove(client_id);
    }

    /// The ids of all clients, in order
    pub fn ids(&self) -> (r: Vec<u32>)
        requires
            self.wf(),
        ensures
            r@ == table::ordered(self@.dom()),
            table::lists(r@, self@.dom()),
    {
        self.states.keys()
    }

    /// Every object of a type, client by client.
    pub fn holders_of(&self, object_type: ObjectType) -> (r: Vec<(u32, u32)>)
        requires
            self.wf(),
        ensures
            r@ == holders(self@, object_type),
    {
        let ids = self.ids();
        let mut r: Vec<(u32, u32)> = Vec::new();
        let mut i: usize = 0;
        assert(ids@.take(0) =~= Seq::empty());
        while i < ids.len()
            invariant
                self.wf(),
                i <= ids@.len(),
                table::lists(ids@, self@.dom()),
                r@ == typed_of(self@, ids@.take(i as int), object_type),
            decreases ids@.len() - i,
        {
            let id: u32 = ids[i];
            proof {
                assert(ids@.contains(id));
                assert(ids@.take(i as int + 1).drop_last() =~= ids@.take(i as int));
                self.states.lemma_stored(id);
            }
            if let Some(client) = self.states.get(id) {
                let objects = client.objects_typed(object_type);
                let ghost before = r@;
                let mut j: usize = 0;
                assert(r@ =~= before + owned_by(id, objects@.take(0)));
                while j < objects.len()
                    invariant
                        j <= objects@.len(),
                        r@ == before + owned_by(id, objects@.take(j as int)),
                    decreases objects@.len() - j,
                {
                    r.push((id, objects[j]));
                    j = j + 1;
                    assert(r@ =~= before + owned_by(id, objects@.take(j as int)));
                }
                assert(objects@.take(j as int) =~= objects@);
            }
            i = i + 1;
        }
        assert(ids@.take(i as int) =~= ids@);
        r
    }

    /// The type of an object, if there is such a client and such an object.
    pub fn type_of(&self, client_id: u32, object_id: u32) -> (r: Option<ObjectType>)
        requires
            self.wf(),
        ensures
            r == if self@.contains_key(client_id) && self@[client_id].objects.contains_key(
                object_id,
            ) {
                Some(self@[client_id].objects[object_id])
            } else {
                None
            },
    {
        proof {
            self.states.lemma_stored(client_id);
        }
        match self.states.get(client_id) {
            Some(client) => match client.objects.get(object_id) {
                Some(object_type) => Some(*object_type),
                None => None,
            },
            None => None,
        }
    }

    /// The first descriptor a client has sent that nothing has claimed.
    pub fn first_fd(&self, client_id: u32) -> (r: Option<Fd>)
        requires
            self.wf(),
        ensures
            r == if self@.contains_key(client_id) && self@[client_id].fd_queue.len() > 0 {
                Some(self@[client_id].fd_queue[0])
            } else {
                None
            },
    {
        proof {
            self.states.lemma_stored(client_id);
        }
        match self.states.get(client_id) {
            Some(client) => if client.fd_queue.len() > 0 {
                Some(client.fd_queue[0])
            } else {
                None
            },
            None => None,
        }
    }

    /// Whether a client is connected.
    pub fn contains(&self, client_id: u32) -> (r: bool)
        requires
            self.wf(),
        ensures
            r == self@.contains_key(client_id),
    {
        self.states.contains_key(client_id)
    }

    /// The version an object was bound at, without borrowing the collection
    /// mutably.
    ///
    /// [`Self::get`] hands back a `&mut ClientState`, which cannot be held
    /// while the rest of the compositor's state is read. Version gating needs
    /// the answer in exactly that position - deciding whether to send an event,
    /// with the state that decides *what* to send already borrowed.
    pub fn version_of(&self, client_id: u32, object_id: u32) -> (r: Option<u32>)
        requires
            self.wf(),
        ensures
            r == if self@.contains_key(client_id) {
                Some(self@[client_id].version(object_id))
            } else {
                None
            },
    {
        proof {
            self.states.lemma_stored(client_id);
        }
        match self.states.get(client_id) {
            Some(client) => Some(client.version(object_id)),
            None => None,
        }
    }
}

/// An error is the last thing a client hears: it is told, if there is room to
/// tell it, and it is disconnected. Nothing it has changes.
pub proof fn law_an_error_disconnects(c: ClientView, object_id: u32, code: u32, msg: Seq<char>)
    ensures
        c.errored(object_id, code, msg).cancelled,
        c.takes() ==> c.errored(object_id, code, msg).outbox == c.outbox.push(
            error_event(object_id, code, msg),
        ),
        !c.takes() ==> c.errored(object_id, code, msg).outbox == c.outbox,
        c.errored(object_id, code, msg).objects == c.objects,
{
}

/// Nothing a client is sent overtakes anything else, a client whose queue is
/// full is disconnected, and no descriptor sent with a message is lost: it goes
/// out with the message, or is among those to be closed.
pub proof fn law_messages_keep_their_order(c: ClientView, m: Message)
    ensures
        c.takes() ==> c.sent(m).outbox == c.outbox.push(m) && c.sent(m).closing == c.closing,
        !c.takes() ==> c.sent(m).outbox == c.outbox && c.sent(m).closing == c.closing + m.fds,
        c.open && !c.takes() ==> c.sent(m).cancelled,
{
}

/// An id in use is not given to another object: the client that tries is
/// disconnected, and keeps the objects it has. A free id is given to the object
/// and to nothing else.
pub proof fn law_an_id_names_one_object(c: ClientView, id: u32, object_type: ObjectType)
    ensures
        c.free(id) ==> c.registered(id, object_type).objects == c.objects.insert(id, object_type)
            && c.registered(id, object_type).cancelled == c.cancelled,
        !c.free(id) ==> c.registered(id, object_type).objects == c.objects && c.registered(
            id,
            object_type,
        ).cancelled,
{
}

/// An object that is gone leaves its id free, and speaks no version any more.
/// The client is told that it may use the id again if the id is one of its own,
/// and of an id of the compositor's it is told nothing.
pub proof fn law_only_a_clients_own_ids_are_given_back(c: ClientView, id: u32)
    ensures
        c.unregistered(id).free(id),
        c.unregistered(id).version(id) == 1,
        server_id(id) ==> c.unregistered(id).outbox == c.outbox,
        !server_id(id) && c.takes() ==> c.unregistered(id).outbox == c.outbox.push(
            delete_id_event(id),
        ),
{
}

/// The compositor names objects in its own half of the id space and never uses
/// a name again: the next name is behind every name there has been, and nothing
/// that happens to the client brings it back.
pub proof fn law_server_ids_are_never_used_again(
    c: ClientView,
    id: u32,
    object_type: ObjectType,
    m: Message,
)
    requires
        server_id(c.next_server_id),
    ensures
        server_id(c.allocated(object_type).next_server_id),
        c.can_allocate() ==> c.allocated(object_type).next_server_id > c.next_server_id,
        c.registered(id, object_type).next_server_id == c.next_server_id,
        c.unregistered(id).next_server_id == c.next_server_id,
        c.sent(m).next_server_id == c.next_server_id,
{
}

} // verus!

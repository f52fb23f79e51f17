//! `zwp_linux_buffer_params_v1` protocol handler.
//!
//! A buffer under construction: the client adds one descriptor per plane, then
//! asks for a `wl_buffer`. The object is single-use - after `create` or
//! `create_immed` the only legal request is `destroy`.
//!
//! The two creation requests differ in who names the `wl_buffer` and therefore
//! in what can still be refused. `create` lets the compositor answer `created`
//! with an id of its own, or `failed`, so a client that cannot use dma-buf
//! learns in time to fall back. `create_immed` has the client name the id up
//! front, so there is nothing to refuse: a buffer that turns out not to import
//! is registered anyway, as [`BufferKind::Failed`], and simply draws nothing.
//! That is what the protocol means by "the server creates an invalid
//! `wl_buffer`, marks it as failed" - tearing the object down instead would
//! leave the client owning an id the compositor has forgotten, and the next
//! request naming it would disconnect them.
//!
//! Errors split the same way throughout: a malformed request is a fatal
//! protocol error, and "the driver will not take this" is the non-fatal
//! `failed` event, because only the second is something a client can recover
//! from.

use crate::buffers::{self, fds_of, fds_of_params};
use crate::client::ObjectType;
use crate::dmabuf::{DmabufFormat, DmabufFormatView, DRM_FORMAT_MOD_INVALID, DRM_FORMAT_MOD_LINEAR};
use crate::dmabuf;
use crate::objects::{
    BufferKind, BufferKindView, BufferParams, BufferView, DmabufImage, DmabufImageView,
    DmabufPlane, PendingImport, PendingImportView, PendingPlane, MAX_DMABUF_PLANES,
};
use crate::protocol::unknown_request;
use crate::seqs;
use crate::state::{self, CompositorState, Effect, EffectView, State};
use crate::table;
use crate::wire::{
    self, read_i32, read_u32, tell0, tell1, ArgReader, Fd, Request,
    WaylandProtocolMessageWithClientInfo,
};
use crate::workspace::ClientObjectId;
use vstd::prelude::*;

verus! {

// Request opcodes
pub const DESTROY: u16 = 0;

/// Carries a file descriptor - see [`crate::protocol::request_fd_count`].
pub const ADD: u16 = 1;

pub const CREATE: u16 = 2;

pub const CREATE_IMMED: u16 = 3;

// Event opcodes
pub const CREATED: u16 = 0;

pub const FAILED: u16 = 1;

// zwp_linux_buffer_params_v1.error
/// The object has already been used to create a buffer.
pub const ERROR_ALREADY_USED: u32 = 0;

/// Plane index out of bounds.
pub const ERROR_PLANE_IDX: u32 = 1;

/// The plane was already set.
pub const ERROR_PLANE_SET: u32 = 2;

/// The plane set is missing planes.
pub const ERROR_INCOMPLETE: u32 = 3;

/// Format not supported.
pub const ERROR_INVALID_FORMAT: u32 = 4;

/// Invalid width or height.
pub const ERROR_INVALID_DIMENSIONS: u32 = 5;

/// Offset + stride exceed the descriptor.
pub const ERROR_OUT_OF_BOUNDS: u32 = 6;

/// Bytes per pixel assumed when checking a plane against its descriptor.
///
/// Every format this compositor can sample is 32-bit; the bound is only used to
/// prove a plane fits, and for anything wider it is conservative rather than
/// wrong.
pub const BYTES_PER_PIXEL: u64 = 4;

/// The 64 bits of a modifier, which arrives in halves.
pub open spec fn joined_halves(hi: u32, lo: u32) -> u64 {
    (hi * 0x1_0000_0000 + lo) as u64
}

/// A plane that has been described.
pub open spec fn plane_list(plane: Option<PendingPlane>) -> Seq<PendingPlane> {
    match plane {
        Some(p) => seq![p],
        None => Seq::empty(),
    }
}

impl BufferParams {
    /// Nothing described yet.
    pub open spec fn fresh() -> Self {
        BufferParams { plane0: None, plane1: None, plane2: None, plane3: None, used: false }
    }

    /// The plane in a slot.
    pub open spec fn slot(self, index: int) -> Option<PendingPlane> {
        if index == 0 {
            self.plane0
        } else if index == 1 {
            self.plane1
        } else if index == 2 {
            self.plane2
        } else {
            self.plane3
        }
    }

    /// The same with a plane in a slot.
    pub open spec fn with_slot(self, index: int, plane: PendingPlane) -> Self {
        if index == 0 {
            BufferParams { plane0: Some(plane), ..self }
        } else if index == 1 {
            BufferParams { plane1: Some(plane), ..self }
        } else if index == 2 {
            BufferParams { plane2: Some(plane), ..self }
        } else {
            BufferParams { plane3: Some(plane), ..self }
        }
    }

    /// The planes run from zero with no gaps: a set with a hole describes
    /// nothing.
    pub open spec fn complete(self) -> bool {
        &&& self.plane0 is Some
        &&& self.plane2 is Some ==> self.plane1 is Some
        &&& self.plane3 is Some ==> self.plane2 is Some
    }

    /// The planes that have been described.
    pub open spec fn described(self) -> Seq<PendingPlane> {
        plane_list(self.plane0) + plane_list(self.plane1) + plane_list(self.plane2) + plane_list(
            self.plane3,
        )
    }

    /// Every plane is laid out the same way: one buffer has one layout, though
    /// the protocol carries a modifier per plane.
    pub open spec fn agree(self, modifier: u64) -> bool {
        forall|i: int|
            0 <= i < self.described().len() ==> (#[trigger] self.described()[i]).modifier
                == modifier
    }

    /// Nothing described yet.
    pub fn empty() -> (r: Self)
        ensures
            r == Self::fresh(),
    {
        BufferParams { plane0: None, plane1: None, plane2: None, plane3: None, used: false }
    }

    /// The plane in a slot.
    pub fn get_slot(&self, index: u32) -> (r: Option<PendingPlane>)
        ensures
            r == self.slot(index as int),
    {
        match index {
            0 => self.plane0,
            1 => self.plane1,
            2 => self.plane2,
            _ => self.plane3,
        }
    }

    /// Put a plane in a slot.
    pub fn set_slot(&mut self, index: u32, plane: PendingPlane)
        ensures
            *final(self) == old(self).with_slot(index as int, plane),
    {
        match index {
            0 => self.plane0 = Some(plane),
            1 => self.plane1 = Some(plane),
            2 => self.plane2 = Some(plane),
            _ => self.plane3 = Some(plane),
        }
    }
}

/// Where a plane's memory is.
pub open spec fn plane_of() -> spec_fn(PendingPlane) -> DmabufPlane {
    |p: PendingPlane| p.plane
}

/// A plane runs past the end of a descriptor that says how long it is. Only
/// for layouts whose extent can be worked out from the outside.
pub open spec fn overruns(
    plane: DmabufPlane,
    width: i32,
    height: i32,
    modifier: u64,
    size: i64,
) -> bool {
    &&& modifier == DRM_FORMAT_MOD_INVALID || modifier == DRM_FORMAT_MOD_LINEAR
    &&& size > 0
    &&& plane.offset + plane.stride * (height - 1) + width * BYTES_PER_PIXEL > size
}

/// What came of turning a described set of planes into something importable.
#[verifier::ext_equal]
pub enum DescriptionView {
    Fatal(u32, Seq<char>),
    Failed,
    Made(DmabufImageView),
}

/// What came of turning a described set of planes into something importable.
pub enum Description {
    /// The request itself is malformed: fatal, with a
    /// `zwp_linux_buffer_params_v1.error`.
    Fatal(u32, &'static str),
    /// The request is well formed and cannot be honoured: the `failed` event,
    /// which is what lets a client fall back to shm.
    Failed,
    /// An image to import.
    Made(DmabufImage),
}

impl View for Description {
    type V = DescriptionView;

    open spec fn view(&self) -> DescriptionView {
        match self {
            Description::Fatal(code, reason) => DescriptionView::Fatal(*code, reason@),
            Description::Failed => DescriptionView::Failed,
            Description::Made(image) => DescriptionView::Made(image@),
        }
    }
}

/// A format was offered.
pub open spec fn offered(formats: Seq<DmabufFormatView>, fourcc: u32) -> bool {
    exists|i: int| 0 <= i < formats.len() && (#[trigger] formats[i]).fourcc == fourcc
}

/// What a set of planes describes.
pub open spec fn description(
    params: BufferParams,
    formats: Seq<DmabufFormatView>,
    width: i32,
    height: i32,
    format: u32,
    flags: u32,
    size: i64,
) -> DescriptionView {
    let modifier = params.described()[0].modifier;
    if params.used {
        DescriptionView::Fatal(ERROR_ALREADY_USED, "already used"@)
    } else if width <= 0 || height <= 0 {
        DescriptionView::Fatal(ERROR_INVALID_DIMENSIONS, "width and height must be positive"@)
    } else if !params.complete() {
        DescriptionView::Fatal(ERROR_INCOMPLETE, "planes must be set from zero with no gaps"@)
    } else if !params.agree(modifier) {
        DescriptionView::Fatal(ERROR_INVALID_FORMAT, "planes disagree about the format modifier"@)
    } else if overruns(params.described()[0].plane, width, height, modifier, size) {
        DescriptionView::Fatal(ERROR_OUT_OF_BOUNDS, "plane runs past the end of its descriptor"@)
    } else if flags != 0 || !offered(formats, format) {
        DescriptionView::Failed
    } else {
        DescriptionView::Made(
            DmabufImageView {
                width,
                height,
                fourcc: format,
                modifier,
                planes: params.described().map_values(plane_of()),
            },
        )
    }
}

/// An import a client asked for, on one of its params objects or on any.
pub open spec fn import_of(
    imports: Map<u64, PendingImportView>,
    client_id: u32,
    params: Option<u32>,
) -> spec_fn(u64) -> bool {
    |t: u64|
        imports[t].client_id == client_id && (params matches Some(id) ==> imports[t].params_id == id)
}

/// Give up on one import.
pub open spec fn cancelling() -> spec_fn(State, u64) -> State {
    |s: State, t: u64|
        if s.pending_dmabuf_imports.contains_key(t) {
            State { pending_dmabuf_imports: s.pending_dmabuf_imports.remove(t), ..s }.let_go(
                buffers::plane_fds(s.pending_dmabuf_imports[t].image.planes),
            )
        } else {
            s
        }
}

/// Forget one buffer under construction.
pub open spec fn removing_params() -> spec_fn(State, ClientObjectId) -> State {
    |s: State, key: ClientObjectId| s.params_removed(key)
}

impl State {
    /// The state once a buffer under construction has been given up.
    pub open spec fn params_removed(self, key: ClientObjectId) -> Self {
        if self.dmabuf_params.contains_key(key) {
            State { dmabuf_params: self.dmabuf_params.remove(key), ..self }.let_go(
                buffers::params_fds(self.dmabuf_params[key]),
            )
        } else {
            self
        }
    }

    /// The imports a client asked for, on one of its params objects or on any.
    pub open spec fn imports_of(self, client_id: u32, params: Option<u32>) -> Seq<u64> {
        table::ordered(self.pending_dmabuf_imports.dom()).filter(
            import_of(self.pending_dmabuf_imports, client_id, params),
        )
    }

    /// The state once nobody waits for the imports of a client any more, or of
    /// one of its params objects.
    pub open spec fn imports_cancelled(self, client_id: u32, params: Option<u32>) -> Self {
        state::each(self, self.imports_of(client_id, params), cancelling())
    }

    /// The state once a plane has been described, or the client told why not.
    /// A descriptor that is not kept is closed.
    pub open spec fn plane_added(self, r: Request, fds: Seq<Fd>) -> Self {
        let key = r.key();
        let known = self.dmabuf_params.contains_key(key);
        let params = self.dmabuf_params[key];
        match (r.word(0), r.word(4), r.word(8), r.word(12), r.word(16)) {
            (Some(index), Some(offset), Some(stride), Some(hi), Some(lo)) => if known
                && params.used {
                self.errored(r.client, r.object, ERROR_ALREADY_USED, "already used"@).all_closed(
                    fds,
                )
            } else if index >= MAX_DMABUF_PLANES {
                self.errored(
                    r.client,
                    r.object,
                    ERROR_PLANE_IDX,
                    "plane index out of bounds"@,
                ).all_closed(fds)
            } else if known && params.slot(index as int) is Some {
                self.errored(r.client, r.object, ERROR_PLANE_SET, "plane already set"@).all_closed(
                    fds,
                )
            } else if fds.len() == 0 {
                self.errored(
                    r.client,
                    r.object,
                    0,
                    "zwp_linux_buffer_params_v1.add: missing fd"@,
                )
            } else if known && self.knows(r.client) {
                State {
                    dmabuf_params: self.dmabuf_params.insert(
                        key,
                        params.with_slot(
                            index as int,
                            PendingPlane {
                                plane: DmabufPlane { fd: fds[0], offset, stride },
                                modifier: joined_halves(hi, lo),
                            },
                        ),
                    ),
                    ..self
                }.all_closed(fds.skip(1))
            } else {
                self.all_closed(fds)
            },
            _ => self.errored(
                r.client,
                r.object,
                0,
                "zwp_linux_buffer_params_v1.add: malformed args"@,
            ).all_closed(fds),
        }
    }

    /// The state once a client has been told its buffer could not be made, if
    /// the params object is still there to tell it on.
    pub open spec fn failure_told(self, key: ClientObjectId) -> Self {
        if self.dmabuf_params.contains_key(key) {
            self.sent(key.0, wire::told0(key.1, FAILED))
        } else {
            self
        }
    }

    /// The state once a buffer has been refused. One the client has named
    /// already becomes a buffer that draws nothing.
    pub open spec fn buffer_refused(
        self,
        key: ClientObjectId,
        immediate: Option<u32>,
        width: i32,
        height: i32,
    ) -> Self {
        match immediate {
            Some(buffer_id) => self.failed_registered(key.0, buffer_id, width, height),
            None => self,
        }.failure_told(key)
    }

    /// The state once the described planes have been used up.
    pub open spec fn params_used(self, key: ClientObjectId) -> Self {
        State {
            dmabuf_params: self.dmabuf_params.insert(
                key,
                BufferParams { used: true, ..self.dmabuf_params[key] },
            ),
            ..self
        }
    }

    /// The state once an image has been sent off for the backend's verdict, or
    /// refused because there is nobody to give one.
    pub open spec fn import_asked(
        self,
        key: ClientObjectId,
        immediate: Option<u32>,
        image: DmabufImageView,
        ready: bool,
    ) -> Self {
        let (width, height) = (image.width, image.height);
        let s = match immediate {
            Some(buffer_id) => self.dmabuf_registered(key.0, buffer_id, image, width, height),
            None => self,
        };
        let registered = match immediate {
            Some(buffer_id) => Some((buffer_id, s.next_content_serial)),
            None => None,
        };
        let token = s.next_import_token;
        let s = State { next_import_token: buffers::serial_after(token), ..s };
        if ready {
            let s = s.with_effect(EffectView::ImportDmabuf { token, image });
            State {
                pending_dmabuf_imports: s.pending_dmabuf_imports.insert(
                    token,
                    PendingImportView {
                        client_id: key.0,
                        params_id: key.1,
                        immediate: registered,
                        image,
                        width,
                        height,
                    },
                ),
                ..s
            }
        } else {
            s.buffer_refused(key, immediate, width, height)
        }
    }

    /// The state once a buffer has been asked for, the arguments that describe
    /// it starting at an offset.
    pub open spec fn buffer_asked(
        self,
        r: Request,
        offset: int,
        immediate: Option<u32>,
        size: i64,
        ready: bool,
    ) -> Self {
        let key = r.key();
        match (r.signed(offset), r.signed(offset + 4), r.word(offset + 8), r.word(offset + 12)) {
            (Some(width), Some(height), Some(format), Some(flags)) => if !self.dmabuf_params.contains_key(
                key,
            ) {
                self.errored(r.client, r.object, ERROR_ALREADY_USED, "no such params object"@)
            } else {
                let s = self.params_used(key);
                match description(
                    self.dmabuf_params[key],
                    self.dmabuf_formats,
                    width,
                    height,
                    format,
                    flags,
                    size,
                ) {
                    DescriptionView::Fatal(code, reason) => s.errored(
                        r.client,
                        r.object,
                        code,
                        reason,
                    ),
                    DescriptionView::Failed => s.buffer_refused(key, immediate, width, height),
                    DescriptionView::Made(image) => s.import_asked(key, immediate, image, ready),
                }
            },
            _ => self.errored(
                r.client,
                r.object,
                0,
                "zwp_linux_buffer_params_v1.create: malformed args"@,
            ),
        }
    }

    /// The state once a buffer has been asked for under a name.
    pub open spec fn buffer_asked_immediately(self, r: Request, size: i64, ready: bool) -> Self {
        match r.word(0) {
            Some(buffer_id) => {
                let s = self.registered(r.client, buffer_id, ObjectType::WlBuffer);
                if self.can_register(r.client, buffer_id) {
                    s.buffer_asked(r, 4, Some(buffer_id), size, ready)
                } else {
                    s
                }
            },
            None => self.errored(
                r.client,
                r.object,
                0,
                "zwp_linux_buffer_params_v1.create_immed: malformed args"@,
            ),
        }
    }

    /// The state once a `zwp_linux_buffer_params_v1` request has been handled:
    /// `size` is how long the first plane's descriptor says it is, and `ready`
    /// whether the backend will take a request.
    pub open spec fn zwp_linux_buffer_params_handled(
        self,
        r: Request,
        fds: Seq<Fd>,
        size: i64,
        ready: bool,
    ) -> Self {
        if r.op == ADD {
            self.plane_added(r, fds)
        } else {
            let s = self.all_closed(fds);
            if r.op == DESTROY {
                s.params_removed(r.key()).imports_cancelled(r.client, Some(r.object)).unregistered(
                    r.client,
                    r.object,
                )
            } else if r.op == CREATE {
                s.buffer_asked(r, 0, None, size, ready)
            } else if r.op == CREATE_IMMED {
                s.buffer_asked_immediately(r, size, ready)
            } else {
                s.rejected(r, "zwp_linux_buffer_params_v1"@)
            }
        }
    }

    /// The state once a buffer has turned out not to import. What still reads
    /// it keeps its memory.
    pub open spec fn buffer_failed(self, key: ClientObjectId) -> Self {
        let buffer = self.buffers[key];
        let s = State {
            buffers: self.buffers.insert(
                key,
                BufferView { kind: BufferKindView::Failed, ..buffer },
            ),
            ..self
        };
        match buffer.kind {
            BufferKindView::Dmabuf(image) if s.buffer_readers.contains_key(
                buffer.content_serial,
            ) => State {
                retired_images: s.retired_images.insert(buffer.content_serial, image),
                ..s
            },
            _ => s,
        }
    }

    /// The state once the backend's verdict on an import has been acted on, its
    /// descriptors aside.
    pub open spec fn verdict_given(self, pending: PendingImportView, imported: bool) -> Self {
        let key = (pending.client_id, pending.params_id);
        match pending.immediate {
            Some((buffer_id, serial)) => {
                let buffer = (pending.client_id, buffer_id);
                if !imported && self.buffers.contains_key(buffer)
                    && self.buffers[buffer].content_serial == serial {
                    self.buffer_failed(buffer).failure_told(key)
                } else {
                    self
                }
            },
            None => if !imported {
                self.failure_told(key)
            } else if !self.knows(key.0) {
                self
            } else if !self.clients[key.0].can_allocate() {
                self.failure_told(key)
            } else {
                let client = self.clients[key.0];
                let buffer_id = client.next_server_id;
                self.with_client(key.0, client.allocated(ObjectType::WlBuffer)).sent(
                    key.0,
                    wire::told1(key.1, CREATED, buffer_id),
                ).dmabuf_registered(key.0, buffer_id, pending.image, pending.width, pending.height)
            },
        }
    }

    /// The state once the backend's verdict on an import has been acted on.
    pub open spec fn import_resolved(self, token: u64, imported: bool) -> Self {
        if self.pending_dmabuf_imports.contains_key(token) {
            let pending = self.pending_dmabuf_imports[token];
            State { pending_dmabuf_imports: self.pending_dmabuf_imports.remove(token), ..self }
                .verdict_given(pending, imported)
                .let_go(buffers::plane_fds(pending.image.planes))
        } else {
            self
        }
    }
}

pub fn handle(
    state: &mut CompositorState,
    msg: &WaylandProtocolMessageWithClientInfo,
    fds: Vec<Fd>,
    size: i64,
    ready: bool,
)
    requires
        old(state).wf(),
    ensures
        final(state).wf(),
        final(state)@ == old(state)@.zwp_linux_buffer_params_handled(msg@, fds@, size, ready),
{
    proof {
        reveal_strlit("zwp_linux_buffer_params_v1");
    }
    if msg.message.op_code == ADD {
        handle_add(state, msg, fds);
        return ;
    }
    state.close_all(&fds);
    match msg.message.op_code {
        DESTROY => handle_destroy(state, msg),
        CREATE => create(state, msg, 0, None, size, ready),
        CREATE_IMMED => handle_create_immed(state, msg, size, ready),
        _ => unknown_request(state, msg, "zwp_linux_buffer_params_v1"),
    }
}

impl CompositorState {
    /// Give up a buffer under construction, and the descriptors it held.
    pub fn remove_params(&mut self, key: ClientObjectId)
        requires
            old(self).wf(),
        ensures
            final(self).wf(),
            final(self)@ == old(self)@.params_removed(key),
    {
        if let Some(params) = self.dmabuf_params.remove(key) {
            let fds = fds_of_params(&params);
            self.let_go(&fds);
        }
    }

    /// The imports a client asked for, on one of its params objects or on any.
    fn imports_of(&self, client_id: u32, params: Option<u32>) -> (r: Vec<u64>)
        requires
            self.wf(),
        ensures
            r@ == self@.imports_of(client_id, params),
    {
        let tokens = self.pending_dmabuf_imports.keys();
        let ghost p = import_of(self@.pending_dmabuf_imports, client_id, params);
        let mut r: Vec<u64> = Vec::new();
        let mut i: usize = 0;
        proof {
            reveal(Seq::filter);
            assert(tokens@.take(0) =~= Seq::empty());
        }
        while i < tokens.len()
            invariant
                self.wf(),
                i <= tokens@.len(),
                table::lists(tokens@, self@.pending_dmabuf_imports.dom()),
                p == import_of(self@.pending_dmabuf_imports, client_id, params),
                r@ == tokens@.take(i as int).filter(p),
            decreases tokens@.len() - i,
        {
            let token: u64 = tokens[i];
            proof {
                assert(tokens@.contains(token));
                seqs::lemma_filter_step(tokens@, p, i as int);
            }
            let wanted = match self.pending_dmabuf_imports.get(token) {
                Some(pending) => pending.client_id == client_id && match params {
                    Some(id) => pending.params_id == id,
                    None => true,
                },
                None => false,
            };
            if wanted {
                r.push(token);
            }
            i = i + 1;
        }
        assert(tokens@.take(i as int) =~= tokens@);
        r
    }

    /// Stop waiting for the imports of a client, or of one of its params
    /// objects, and give up the descriptors they held.
    pub fn cancel_imports(&mut self, client_id: u32, params: Option<u32>)
        requires
            old(self).wf(),
        ensures
            final(self).wf(),
            final(self)@ == old(self)@.imports_cancelled(client_id, params),
    {
        let tokens = self.imports_of(client_id, params);
        let ghost start = self@;
        let mut i: usize = 0;
        proof {
            state::lemma_each_ends(start, tokens@, cancelling());
        }
        while i < tokens.len()
            invariant
                self.wf(),
                i <= tokens@.len(),
                self@ == state::each(start, tokens@.take(i as int), cancelling()),
            decreases tokens@.len() - i,
        {
            proof {
                state::lemma_each_step(start, tokens@, cancelling(), i as int);
            }
            let token: u64 = tokens[i];
            if let Some(pending) = self.pending_dmabuf_imports.remove(token) {
                let fds = fds_of(&pending.image.planes);
                self.let_go(&fds);
            }
            i = i + 1;
        }
    }

    /// Make a buffer that does not import one that draws nothing.
    fn fail_buffer(&mut self, key: ClientObjectId)
        requires
            old(self).wf(),
            old(self)@.buffers.contains_key(key),
        ensures
            final(self).wf(),
            final(self)@ == old(self)@.buffer_failed(key),
    {
        if let Some(mut buffer) = self.buffers.remove(key) {
            let mut kind = BufferKind::Failed;
            std::mem::swap(&mut kind, &mut buffer.kind);
            let serial: u64 = buffer.content_serial;
            self.buffers.insert(key, buffer);
            if let BufferKind::Dmabuf(image) = kind {
                if self.buffer_readers.contains_key(serial) {
                    self.retired_images.insert(serial, image);
                }
            }
            assert(self@.buffers =~= old(self)@.buffer_failed(key).buffers);
        }
    }
}

fn handle_destroy(state: &mut CompositorState, msg: &WaylandProtocolMessageWithClientInfo)
    requires
        old(state).wf(),
    ensures
        final(state).wf(),
        final(state)@ == old(state)@.params_removed(msg@.key()).imports_cancelled(
            msg.client_id,
            Some(msg.message.object_id),
        ).unregistered(msg.client_id, msg.message.object_id),
{
    state.remove_params((msg.client_id, msg.message.object_id));
    // An import still in flight has nowhere to report back to, and holding its
    // descriptors any longer would be a leak. Cancelling is legitimate: a
    // client may destroy the object to abandon a buffer it no longer wants.
    state.cancel_imports(msg.client_id, Some(msg.message.object_id));
    state.unregister(msg.client_id, msg.message.object_id);
}

/// Add one plane's descriptor.
///
/// Every error path closes what came with the request, so a descriptor is
/// either kept by the plane it describes or gone.
fn handle_add(state: &mut CompositorState, msg: &WaylandProtocolMessageWithClientInfo, fds: Vec<Fd>)
    requires
        old(state).wf(),
    ensures
        final(state).wf(),
        final(state)@ == old(state)@.plane_added(msg@, fds@),
{
    let key = (msg.client_id, msg.message.object_id);
    let mut args = ArgReader::new(msg.message.args.as_slice());
    let (index, offset, stride, hi, lo) = (args.u32(), args.u32(), args.u32(), args.u32(), args.u32());
    let (index, offset, stride, hi, lo): (u32, u32, u32, u32, u32) = match (
        index,
        offset,
        stride,
        hi,
        lo,
    ) {
        (Some(index), Some(offset), Some(stride), Some(hi), Some(lo)) => (
            index,
            offset,
            stride,
            hi,
            lo,
        ),
        _ => {
            proof {
                reveal_strlit("zwp_linux_buffer_params_v1.add: malformed args");
            }
            state.fail(
                msg.client_id,
                msg.message.object_id,
                0,
                "zwp_linux_buffer_params_v1.add: malformed args",
            );
            state.close_all(&fds);
            return ;
        },
    };
    let (used, occupied): (bool, bool) = match state.dmabuf_params.get(key) {
        Some(params) => (params.used, params.get_slot(index).is_some()),
        None => (false, false),
    };
    if used {
        proof {
            reveal_strlit("already used");
        }
        state.fail(msg.client_id, msg.message.object_id, ERROR_ALREADY_USED, "already used");
        state.close_all(&fds);
        return ;
    }
    if index as u64 >= MAX_DMABUF_PLANES as u64 {
        proof {
            reveal_strlit("plane index out of bounds");
        }
        state.fail(
            msg.client_id,
            msg.message.object_id,
            ERROR_PLANE_IDX,
            "plane index out of bounds",
        );
        state.close_all(&fds);
        return ;
    }
    if occupied {
        proof {
            reveal_strlit("plane already set");
        }
        state.fail(msg.client_id, msg.message.object_id, ERROR_PLANE_SET, "plane already set");
        state.close_all(&fds);
        return ;
    }
    if fds.len() == 0 {
        proof {
            reveal_strlit("zwp_linux_buffer_params_v1.add: missing fd");
        }
        state.fail(
            msg.client_id,
            msg.message.object_id,
            0,
            "zwp_linux_buffer_params_v1.add: missing fd",
        );
        return ;
    }
    let known = state.clients.version_of(msg.client_id, msg.message.object_id).is_some();
    let mut fds = fds;
    if known {
        if let Some(params) = state.dmabuf_params.get_mut(key) {
            let ghost all = fds@;
            let fd = fds.remove(0);
            params.set_slot(
                index,
                PendingPlane {
                    plane: DmabufPlane { fd, offset, stride },
                    modifier: hi as u64 * 0x1_0000_0000 + lo as u64,
                },
            );
            assert(fds@ =~= all.skip(1));
        }
    }
    state.close_all(&fds);
}

/// `create`: the compositor names the buffer, so it can still say no. With a
/// name, `create_immed`, whose arguments follow the name.
fn create(
    state: &mut CompositorState,
    msg: &WaylandProtocolMessageWithClientInfo,
    offset: usize,
    immediate: Option<u32>,
    size: i64,
    ready: bool,
)
    requires
        old(state).wf(),
        offset <= 4,
    ensures
        final(state).wf(),
        final(state)@ == old(state)@.buffer_asked(msg@, offset as int, immediate, size, ready),
{
    let key = (msg.client_id, msg.message.object_id);
    let args = msg.message.args.as_slice();
    let (width, height, format, flags): (i32, i32, u32, u32) = match (
        read_i32(args, offset),
        read_i32(args, offset + 4),
        read_u32(args, offset + 8),
        read_u32(args, offset + 12),
    ) {
        (Some(width), Some(height), Some(format), Some(flags)) => (width, height, format, flags),
        _ => {
            proof {
                reveal_strlit("zwp_linux_buffer_params_v1.create: malformed args");
            }
            state.fail(
                msg.client_id,
                msg.message.object_id,
                0,
                "zwp_linux_buffer_params_v1.create: malformed args",
            );
            return ;
        },
    };
    let description = match state.dmabuf_params.get(key) {
        Some(params) => describe(
            params,
            &state.dmabuf_formats,
            width,
            height,
            format,
            flags,
            size,
        ),
        None => {
            proof {
                reveal_strlit("no such params object");
            }
            state.fail(
                msg.client_id,
                msg.message.object_id,
                ERROR_ALREADY_USED,
                "no such params object",
            );
            return ;
        },
    };
    // Set before anything can fail asynchronously, so a second create is
    // refused even while the first is still in flight.
    if let Some(params) = state.dmabuf_params.get_mut(key) {
        params.used = true;
    }
    assert(state@ =~= old(state)@.params_used(key));
    match description {
        Description::Fatal(code, reason) => state.fail(
            msg.client_id,
            msg.message.object_id,
            code,
            reason,
        ),
        Description::Failed => refuse(state, key, immediate, width, height),
        Description::Made(image) => ask_import(state, key, immediate, image, ready),
    }
}

/// Send an image off for the backend's verdict. Only the backend can give one,
/// and if it cannot be reached the client is told now rather than left waiting
/// for a verdict that cannot arrive.
fn ask_import(
    state: &mut CompositorState,
    key: ClientObjectId,
    immediate: Option<u32>,
    image: DmabufImage,
    ready: bool,
)
    requires
        old(state).wf(),
    ensures
        final(state).wf(),
        final(state)@ == old(state)@.import_asked(key, immediate, image@, ready),
{
    let (width, height): (i32, i32) = (image.width, image.height);
    // For `create_immed` the client already owns the id, so the buffer exists
    // from this moment whatever the driver later says.
    let registered: Option<(u32, u64)> = match immediate {
        Some(buffer_id) => {
            let serial: u64 = state.register_dmabuf(key.0, buffer_id, image.again(), width, height);
            Some((buffer_id, serial))
        },
        None => None,
    };
    let token: u64 = state.next_import_token;
    if token < u64::MAX {
        state.next_import_token = token + 1;
    }
    if !ready {
        refuse(state, key, immediate, width, height);
        return ;
    }
    let ghost before = state@;
    state.effects.push(Effect::ImportDmabuf { token, image: image.again() });
    assert(state@.effects =~= before.effects.push(EffectView::ImportDmabuf { token, image: image@ }));
    state.pending_dmabuf_imports.insert(
        token,
        PendingImport {
            client_id: key.0,
            params_id: key.1,
            immediate: registered,
            image,
            width,
            height,
        },
    );
}

/// `create_immed`: the client names the buffer, so nothing can be refused.
fn handle_create_immed(
    state: &mut CompositorState,
    msg: &WaylandProtocolMessageWithClientInfo,
    size: i64,
    ready: bool,
)
    requires
        old(state).wf(),
    ensures
        final(state).wf(),
        final(state)@ == old(state)@.buffer_asked_immediately(msg@, size, ready),
{
    // The new_id comes first here, unlike `create`.
    match read_u32(msg.message.args.as_slice(), 0) {
        Some(buffer_id) => {
            if state.register(msg.client_id, buffer_id, ObjectType::WlBuffer) {
                create(state, msg, 4, Some(buffer_id), size, ready);
            }
        },
        None => {
            proof {
                reveal_strlit("zwp_linux_buffer_params_v1.create_immed: malformed args");
            }
            state.fail(
                msg.client_id,
                msg.message.object_id,
                0,
                "zwp_linux_buffer_params_v1.create_immed: malformed args",
            );
        },
    }
}

/// Whether a format was offered to clients.
fn is_offered(formats: &Vec<DmabufFormat>, fourcc: u32) -> (r: bool)
    ensures
        r == offered(dmabuf::formats_view(formats@), fourcc),
{
    let ghost shown = dmabuf::formats_view(formats@);
    let mut i: usize = 0;
    while i < formats.len()
        invariant
            i <= formats@.len(),
            shown == dmabuf::formats_view(formats@),
            forall|j: int| 0 <= j < i ==> (#[trigger] shown[j]).fourcc != fourcc,
        decreases formats@.len() - i,
    {
        assert(shown[i as int] == formats@[i as int]@);
        if formats[i].fourcc == fourcc {
            return true;
        }
        i = i + 1;
    }
    false
}

fn push_plane(planes: &mut Vec<DmabufPlane>, plane: Option<PendingPlane>)
    ensures
        final(planes)@ == old(planes)@ + plane_list(plane).map_values(plane_of()),
{
    if let Some(p) = plane {
        planes.push(p.plane);
    }
    assert(planes@ =~= old(planes)@ + plane_list(plane).map_values(plane_of()));
}

/// Whether a plane is missing or laid out this way.
fn agrees(plane: Option<PendingPlane>, modifier: u64) -> (r: bool)
    ensures
        r == (plane matches Some(p) ==> p.modifier == modifier),
{
    match plane {
        Some(p) => p.modifier == modifier,
        None => true,
    }
}

/// Turn a described set of planes into something importable, or say why not.
///
/// Everything checkable is checked here, before any of it reaches the backend:
/// a fatal error must not be deferred behind a round trip.
pub fn describe(
    params: &BufferParams,
    formats: &Vec<DmabufFormat>,
    width: i32,
    height: i32,
    format: u32,
    flags: u32,
    size: i64,
) -> (r: Description)
    ensures
        r@ == description(
            *params,
            dmabuf::formats_view(formats@),
            width,
            height,
            format,
            flags,
            size,
        ),
        r matches Description::Fatal(_, reason) ==> reason@.len() <= 0x1000,
        r matches Description::Made(image) ==> image.width == width && image.height == height,
{
    proof {
        reveal_strlit("already used");
        reveal_strlit("width and height must be positive");
        reveal_strlit("planes must be set from zero with no gaps");
        reveal_strlit("planes disagree about the format modifier");
        reveal_strlit("plane runs past the end of its descriptor");
    }
    if params.used {
        return Description::Fatal(ERROR_ALREADY_USED, "already used");
    }
    if width <= 0 || height <= 0 {
        return Description::Fatal(ERROR_INVALID_DIMENSIONS, "width and height must be positive");
    }
    let first = match params.plane0 {
        Some(first) => first,
        None => {
            return Description::Fatal(
                ERROR_INCOMPLETE,
                "planes must be set from zero with no gaps",
            );
        },
    };
    if (params.plane2.is_some() && params.plane1.is_none()) || (params.plane3.is_some()
        && params.plane2.is_none()) {
        return Description::Fatal(ERROR_INCOMPLETE, "planes must be set from zero with no gaps");
    }
    let modifier: u64 = first.modifier;
    let ghost planes = params.described();
    assert(planes[0] == first);
    let agreed = agrees(params.plane1, modifier) && agrees(params.plane2, modifier) && agrees(
        params.plane3,
        modifier,
    );
    proof {
        if params.plane1 is Some {
            assert(planes[1] == params.plane1.unwrap());
        }
        if params.plane2 is Some {
            assert(planes[2] == params.plane2.unwrap());
        }
        if params.plane3 is Some {
            assert(planes[3] == params.plane3.unwrap());
        }
        assert(agreed == params.agree(modifier));
    }
    if !agreed {
        return Description::Fatal(
            ERROR_INVALID_FORMAT,
            "planes disagree about the format modifier",
        );
    }
    if runs_past(first.plane, width, height, modifier, size) {
        return Description::Fatal(
            ERROR_OUT_OF_BOUNDS,
            "plane runs past the end of its descriptor",
        );
    }
    // y_invert needs a flip this renderer has no way to express, and interlaced
    // content needs a deinterlacer it does not have. Refusing is what the
    // protocol recommends over showing something wrong.
    if flags != 0 || !is_offered(formats, format) {
        return Description::Failed;
    }
    let mut made: Vec<DmabufPlane> = Vec::new();
    push_plane(&mut made, params.plane0);
    push_plane(&mut made, params.plane1);
    push_plane(&mut made, params.plane2);
    push_plane(&mut made, params.plane3);
    assert(made@ =~= planes.map_values(plane_of()));
    Description::Made(DmabufImage { width, height, fourcc: format, modifier, planes: made })
}

/// Check whether the first plane runs past the end of the descriptor it names.
///
/// The only bound on what a client can make the driver read: without it a
/// stride or offset naming memory past the end of the buffer is passed straight
/// through to EGL. A dma-buf says how long it is when asked.
///
/// Only for layouts whose extent can be worked out from the outside - linear,
/// or implicit and so presumed linear. Under a tiling or compression modifier
/// the bytes are not `stride` per row and the later planes are metadata with
/// their own geometry entirely: computing an extent for those says nothing
/// about the buffer, and there the driver knows the real layout and does its
/// own bounds checking at import.
pub fn runs_past(plane: DmabufPlane, width: i32, height: i32, modifier: u64, size: i64) -> (r: bool)
    requires
        width > 0,
        height > 0,
    ensures
        r == overruns(plane, width, height, modifier, size),
{
    if modifier != DRM_FORMAT_MOD_INVALID && modifier != DRM_FORMAT_MOD_LINEAR {
        return false;
    }
    // Not every descriptor answers; refusing one that cannot be checked would
    // reject buffers that work.
    if size <= 0 {
        return false;
    }
    let (stride, rows): (u64, u64) = (plane.stride as u64, height as u64 - 1);
    assert(0 <= stride * rows <= 0x1_0000_0000 * 0x8000_0000) by (nonlinear_arith)
        requires
            0 <= stride <= 0x1_0000_0000,
            0 <= rows <= 0x8000_0000,
    ;
    let extent: u64 = plane.offset as u64 + stride * rows + width as u64 * BYTES_PER_PIXEL;
    assert(stride * rows == plane.stride * (height - 1));
    extent > size as u64
}

/// Tell a client its buffer could not be made.
///
/// For `create` that is the `failed` event and nothing else. For `create_immed`
/// the client already holds the id, so the object stays registered and becomes
/// a buffer that draws nothing.
fn refuse(
    state: &mut CompositorState,
    key: ClientObjectId,
    immediate: Option<u32>,
    width: i32,
    height: i32,
)
    requires
        old(state).wf(),
    ensures
        final(state).wf(),
        final(state)@ == old(state)@.buffer_refused(key, immediate, width, height),
{
    if let Some(buffer_id) = immediate {
        state.register_failed(key.0, buffer_id, width, height);
    }
    send_failed(state, key);
}

/// Send `failed`, if the params object is still there to send it on.
fn send_failed(state: &mut CompositorState, key: ClientObjectId)
    requires
        old(state).wf(),
    ensures
        final(state).wf(),
        final(state)@ == old(state)@.failure_told(key),
{
    if state.dmabuf_params.contains_key(key) {
        state.send(key.0, tell0(key.1, FAILED));
    }
}

/// Act on a verdict, the descriptors aside.
fn give_verdict(state: &mut CompositorState, pending: &PendingImport, imported: bool)
    requires
        old(state).wf(),
    ensures
        final(state).wf(),
        final(state)@ == old(state)@.verdict_given(pending@, imported),
{
    let key = (pending.client_id, pending.params_id);
    if let Some((buffer_id, serial)) = pending.immediate {
        // `create_immed`: the buffer exists either way. A verdict for a buffer
        // that has since been destroyed - possibly with its id already reused -
        // must not touch whatever holds that id now.
        let current = match state.buffers.get((pending.client_id, buffer_id)) {
            Some(buffer) => buffer.content_serial == serial,
            None => false,
        };
        if current && !imported {
            state.fail_buffer((pending.client_id, buffer_id));
            send_failed(state, key);
        }
        return ;
    }
    if !imported {
        send_failed(state, key);
        return ;
    }
    // `create`: the compositor names the buffer, and only now that there is
    // one to name.
    let allocated: Option<u32> = match state.clients.get(pending.client_id) {
        Some(client) => client.allocate_id(ObjectType::WlBuffer),
        None => {
            return ;
        },
    };
    assert(state@.with_client(
        pending.client_id,
        old(state)@.clients[pending.client_id].allocated(ObjectType::WlBuffer),
    ) =~= state@);
    match allocated {
        Some(buffer_id) => {
            state.send(key.0, tell1(key.1, CREATED, buffer_id));
            let _ = state.register_dmabuf(
                key.0,
                buffer_id,
                pending.image.again(),
                pending.width,
                pending.height,
            );
        },
        None => {
            assert(state@ =~= old(state)@);
            send_failed(state, key);
        },
    }
}

/// Act on the backend's verdict for one import.
///
/// Everything it names may be gone by now - the client, the params object, the
/// buffer, or a buffer that has been destroyed and had its id reused - so each
/// is checked rather than assumed.
pub fn resolve_import(state: &mut CompositorState, token: u64, imported: bool)
    requires
        old(state).wf(),
    ensures
        final(state).wf(),
        final(state)@ == old(state)@.import_resolved(token, imported),
{
    // Not there: the params object or the client went away.
    if let Some(pending) = state.pending_dmabuf_imports.remove(token) {
        give_verdict(state, &pending, imported);
        let fds = fds_of(&pending.image.planes);
        state.let_go(&fds);
    }
}

/// A request to make a buffer of the described planes that is all there, under a
/// name that is free if it gives one.
pub open spec fn asks_for_buffer(s: State, r: Request) -> bool {
    ||| r.op == CREATE && r.args.len() >= 16
    ||| r.op == CREATE_IMMED && r.args.len() >= 20 && s.can_register(r.client, r.word(0).unwrap())
}

/// A set of planes is turned into a buffer once: asking again, under a name or
/// not, is the client's error, whatever came of it the first time.
pub proof fn law_a_description_is_used_once(
    s: State,
    first: Request,
    second: Request,
    size: i64,
    ready: bool,
    again_size: i64,
    again_ready: bool,
)
    requires
        s.knows(first.client),
        s.dmabuf_params.contains_key(first.key()),
        asks_for_buffer(s, first),
        second.client == first.client,
        second.object == first.object,
        asks_for_buffer(
            s.zwp_linux_buffer_params_handled(first, Seq::empty(), size, ready),
            second,
        ),
    ensures
        ({
            let t = s.zwp_linux_buffer_params_handled(first, Seq::empty(), size, ready);
            let u = if second.op == CREATE_IMMED {
                t.registered(second.client, second.word(0).unwrap(), ObjectType::WlBuffer)
            } else {
                t
            };
            &&& t.dmabuf_params.contains_key(first.key())
            &&& t.dmabuf_params[first.key()].used
            &&& t.zwp_linux_buffer_params_handled(second, Seq::empty(), again_size, again_ready)
                == u.errored(second.client, second.object, ERROR_ALREADY_USED, "already used"@)
        }),
{
    let none = Seq::<Fd>::empty();
    assert(forall|a: State| #[trigger] a.all_closed(none) == a);
    assert forall|a: State, k: ClientObjectId| (#[trigger] a.buffer_forgotten(k)).dmabuf_params
        == a.dmabuf_params && a.buffer_forgotten(k).clients == a.clients by {
        buffers::lemma_forgetting_only_moves_memory(a, k);
    }
}

} // verus!

//! Shared memory pools, buffers, and who is reading them.

use crate::objects::{
    Buffer, BufferKind, BufferKindView, BufferParams, BufferView, DmabufImage, DmabufImageView,
    DmabufPlane, PendingPlane, ShmBuffer, ShmBufferView, ShmPool,
};
use crate::seqs;
use crate::shared::TextureRect;
use crate::state::{self, CompositorState, State};
use crate::table;
use crate::wire::Fd;
use crate::workspace::ClientObjectId;
use vstd::prelude::*;

verus! {

/// One of some planes is in this descriptor's memory.
pub open spec fn planes_name(planes: Seq<DmabufPlane>, fd: Fd) -> bool {
    exists|i: int| 0 <= i < planes.len() && (#[trigger] planes[i]).fd == fd
}

/// The descriptors some planes are in the memory of.
pub open spec fn plane_fds(planes: Seq<DmabufPlane>) -> Seq<Fd> {
    planes.map_values(|p: DmabufPlane| p.fd)
}

/// A plane described on a params object is in this descriptor's memory.
pub open spec fn plane_names(plane: Option<PendingPlane>, fd: Fd) -> bool {
    plane matches Some(p) && p.plane.fd == fd
}

/// A buffer under construction has a plane in this descriptor's memory.
pub open spec fn params_name(params: BufferParams, fd: Fd) -> bool {
    ||| plane_names(params.plane0, fd)
    ||| plane_names(params.plane1, fd)
    ||| plane_names(params.plane2, fd)
    ||| plane_names(params.plane3, fd)
}

/// The descriptor of a plane, if there is a plane.
pub open spec fn plane_fd(plane: Option<PendingPlane>) -> Seq<Fd> {
    match plane {
        Some(p) => seq![p.plane.fd],
        None => Seq::empty(),
    }
}

/// The descriptors of a buffer under construction.
pub open spec fn params_fds(params: BufferParams) -> Seq<Fd> {
    plane_fd(params.plane0) + plane_fd(params.plane1) + plane_fd(params.plane2) + plane_fd(
        params.plane3,
    )
}

/// A buffer's pixels are in this descriptor's memory, on the GPU.
pub open spec fn kind_names(kind: BufferKindView, fd: Fd) -> bool {
    kind matches BufferKindView::Dmabuf(image) && planes_name(image.planes, fd)
}

/// The serial behind another. There is none behind the last.
pub open spec fn serial_after(serial: u64) -> u64 {
    if serial == u64::MAX {
        serial
    } else {
        (serial + 1) as u64
    }
}

/// What is known to have changed, once more has. Nothing said means
/// everything, and stays meaning everything.
pub open spec fn widened(known: Option<Seq<TextureRect>>, more: Seq<TextureRect>) -> Option<
    Seq<TextureRect>,
> {
    match known {
        Some(rects) if more.len() > 0 => Some(rects + more),
        _ => None,
    }
}

/// Let go of one descriptor that nothing else names.
pub open spec fn letting_go() -> spec_fn(State, Fd) -> State {
    |s: State, fd: Fd| if s.holds_fd(fd) { s } else { s.closed(fd) }
}

/// A buffer of a client that is in one of its pools.
pub open spec fn in_pool(
    buffers: Map<ClientObjectId, BufferView>,
    client_id: u32,
    pool_id: u32,
) -> spec_fn(ClientObjectId) -> bool {
    |k: ClientObjectId|
        k.0 == client_id && (buffers[k].kind matches BufferKindView::Shm(b) && b.pool_id == pool_id)
}

/// Have a buffer taken for wholly changed.
pub open spec fn damaging() -> spec_fn(State, ClientObjectId) -> State {
    |s: State, k: ClientObjectId| s.damaged(k.0, k.1, Seq::empty())
}

impl BufferView {
    /// The buffer once everything known to have changed has been dealt with.
    pub open spec fn undamaged(self) -> Self {
        match self.kind {
            BufferKindView::Shm(b) => BufferView {
                kind: BufferKindView::Shm(ShmBufferView { damage: Some(Seq::empty()), ..b }),
                ..self
            },
            _ => self,
        }
    }
}

impl State {
    /// Something still names this dma-buf descriptor.
    pub open spec fn holds_fd(self, fd: Fd) -> bool {
        ||| exists|k: ClientObjectId|
            self.dmabuf_params.contains_key(k) && params_name(#[trigger] self.dmabuf_params[k], fd)
        ||| exists|t: u64|
            self.pending_dmabuf_imports.contains_key(t) && planes_name(
                (#[trigger] self.pending_dmabuf_imports[t]).image.planes,
                fd,
            )
        ||| exists|k: ClientObjectId|
            self.buffers.contains_key(k) && kind_names((#[trigger] self.buffers[k]).kind, fd)
        ||| exists|g: u64|
            self.retired_images.contains_key(g) && planes_name(
                (#[trigger] self.retired_images[g]).planes,
                fd,
            )
    }

    /// The state once some descriptors have been let go: closed, but for those
    /// something still names.
    pub open spec fn let_go(self, fds: Seq<Fd>) -> Self {
        state::each(self, fds, letting_go())
    }

    /// The state with a pool. One already there under that id is displaced.
    pub open spec fn pool_registered(
        self,
        client_id: u32,
        pool_id: u32,
        fd: Fd,
        size: u32,
        mapped: bool,
    ) -> Self {
        let key = (client_id, pool_id);
        let s = if self.shm_pools.contains_key(key) {
            self.closed(self.shm_pools[key].fd)
        } else {
            self
        };
        State {
            shm_pools: s.shm_pools.insert(
                key,
                ShmPool { client_id, fd, size, mapped, dead: false },
            ),
            ..s
        }
    }

    /// The buffers in a pool, in order.
    pub open spec fn pool_buffers(self, client_id: u32, pool_id: u32) -> Seq<ClientObjectId> {
        table::ordered(self.buffers.dom()).filter(in_pool(self.buffers, client_id, pool_id))
    }

    /// The state once a pool that is dead and empty has been freed.
    pub open spec fn pool_collected(self, client_id: u32, pool_id: u32) -> Self {
        let key = (client_id, pool_id);
        if self.shm_pools.contains_key(key) && self.shm_pools[key].dead && self.pool_buffers(
            client_id,
            pool_id,
        ).len() == 0 {
            State { shm_pools: self.shm_pools.remove(key), ..self }.closed(self.shm_pools[key].fd)
        } else {
            self
        }
    }

    /// The state once a client is done with a pool.
    pub open spec fn pool_destroyed(self, client_id: u32, pool_id: u32) -> Self {
        let key = (client_id, pool_id);
        let s = if self.shm_pools.contains_key(key) {
            State {
                shm_pools: self.shm_pools.insert(
                    key,
                    ShmPool { dead: true, ..self.shm_pools[key] },
                ),
                ..self
            }
        } else {
            self
        };
        s.pool_collected(client_id, pool_id)
    }

    /// The state once a pool's memory has moved: every buffer in it is new.
    pub open spec fn pool_damaged(self, client_id: u32, pool_id: u32) -> Self {
        state::each(self, self.pool_buffers(client_id, pool_id), damaging())
    }

    /// The state once a pool is another size.
    pub open spec fn pool_resized(
        self,
        client_id: u32,
        pool_id: u32,
        size: u32,
        mapped: bool,
    ) -> Self {
        let key = (client_id, pool_id);
        let s = self.pool_damaged(client_id, pool_id);
        if s.shm_pools.contains_key(key) {
            State {
                shm_pools: s.shm_pools.insert(key, ShmPool { size, mapped, ..s.shm_pools[key] }),
                ..s
            }
        } else {
            s
        }
    }

    /// The next content serial.
    pub open spec fn fresh_serial(self) -> u64 {
        serial_after(self.next_content_serial)
    }

    /// The state once a content serial has been handed out.
    pub open spec fn serial_taken(self) -> Self {
        State { next_content_serial: self.fresh_serial(), ..self }
    }

    /// The state once what a buffer id stood for is gone, its readers aside.
    pub open spec fn buffer_forgotten(self, key: ClientObjectId) -> Self {
        if self.buffers.contains_key(key) {
            let buffer = self.buffers[key];
            let s = State { buffers: self.buffers.remove(key), ..self };
            match buffer.kind {
                BufferKindView::Dmabuf(image) => if self.buffer_readers.contains_key(
                    buffer.content_serial,
                ) {
                    State {
                        retired_images: s.retired_images.insert(buffer.content_serial, image),
                        ..s
                    }
                } else {
                    s.let_go(plane_fds(image.planes))
                },
                _ => s,
            }
        } else {
            self
        }
    }

    /// The state with a buffer in a pool.
    pub open spec fn shm_registered(
        self,
        client_id: u32,
        buffer_id: u32,
        pool_id: u32,
        offset: i32,
        width: i32,
        height: i32,
        stride: i32,
        format: u32,
    ) -> Self {
        let key = (client_id, buffer_id);
        let s = self.buffer_forgotten(key).serial_taken();
        let content_serial = s.next_content_serial;
        let pool = (client_id, pool_id);
        let kind = BufferKindView::Shm(
            ShmBufferView { pool_id, offset, stride, format, damage: None },
        );
        State {
            releasing_buffers: s.releasing_buffers.remove(key),
            buffer_guards: if s.shm_pools.contains_key(pool) && s.shm_pools[pool].mapped {
                s.buffer_guards.insert(key, content_serial)
            } else {
                s.buffer_guards
            },
            buffers: s.buffers.insert(
                key,
                BufferView { client_id, width, height, content_serial, kind },
            ),
            ..s
        }
    }

    /// The state with a buffer on the GPU.
    pub open spec fn dmabuf_registered(
        self,
        client_id: u32,
        buffer_id: u32,
        image: DmabufImageView,
        width: i32,
        height: i32,
    ) -> Self {
        let key = (client_id, buffer_id);
        let s = self.buffer_forgotten(key).serial_taken();
        let content_serial = s.next_content_serial;
        State {
            releasing_buffers: s.releasing_buffers.remove(key),
            buffers: s.buffers.insert(
                key,
                BufferView {
                    client_id,
                    width,
                    height,
                    content_serial,
                    kind: BufferKindView::Dmabuf(image),
                },
            ),
            ..s
        }
    }

    /// The state with a buffer that could not be made.
    pub open spec fn failed_registered(
        self,
        client_id: u32,
        buffer_id: u32,
        width: i32,
        height: i32,
    ) -> Self {
        let key = (client_id, buffer_id);
        let s = self.buffer_forgotten(key).serial_taken();
        State {
            buffers: s.buffers.insert(
                key,
                BufferView {
                    client_id,
                    width,
                    height,
                    content_serial: s.next_content_serial,
                    kind: BufferKindView::Failed,
                },
            ),
            ..s
        }
    }

    /// The state once a client has destroyed a buffer.
    pub open spec fn buffer_destroyed(self, client_id: u32, buffer_id: u32) -> Self {
        let key = (client_id, buffer_id);
        let s = self.buffer_forgotten(key);
        let s = State {
            buffer_guards: s.buffer_guards.remove(key),
            releasing_buffers: s.releasing_buffers.remove(key),
            ..s
        };
        if self.buffers.contains_key(key) {
            match self.buffers[key].kind {
                BufferKindView::Shm(b) => s.pool_collected(client_id, b.pool_id),
                _ => s,
            }
        } else {
            s
        }
    }

    /// The state once a buffer's contents have changed. Only what is uploaded
    /// has to be told apart from what it was.
    pub open spec fn damaged(self, client_id: u32, buffer_id: u32, damage: Seq<TextureRect>) -> Self {
        let key = (client_id, buffer_id);
        let s = self.serial_taken();
        if s.buffers.contains_key(key) {
            match s.buffers[key].kind {
                BufferKindView::Shm(b) => State {
                    buffers: s.buffers.insert(
                        key,
                        BufferView {
                            content_serial: s.next_content_serial,
                            kind: BufferKindView::Shm(
                                ShmBufferView { damage: widened(b.damage, damage), ..b },
                            ),
                            ..s.buffers[key]
                        },
                    ),
                    ..s
                },
                _ => s,
            }
        } else {
            s
        }
    }

    /// What a buffer's readers read through.
    pub open spec fn reader_of(self, key: ClientObjectId) -> Option<u64> {
        if !self.buffers.contains_key(key) {
            None
        } else {
            match self.buffers[key].kind {
                BufferKindView::Shm(_) => if self.buffer_guards.contains_key(key) {
                    Some(self.buffer_guards[key])
                } else {
                    None
                },
                BufferKindView::Dmabuf(_) => Some(self.buffers[key].content_serial),
                BufferKindView::Failed => None,
            }
        }
    }

    /// Somebody is reading a buffer.
    pub open spec fn being_read(self, key: ClientObjectId) -> bool {
        self.reader_of(key) matches Some(guard) && self.buffer_readers.contains_key(guard)
    }

    /// The state with one more reader.
    pub open spec fn read_begun(self, guard: u64) -> Self {
        let readers = if self.buffer_readers.contains_key(guard) {
            self.buffer_readers[guard]
        } else {
            0
        };
        State {
            buffer_readers: self.buffer_readers.insert(
                guard,
                if readers == u32::MAX {
                    readers
                } else {
                    (readers + 1) as u32
                },
            ),
            ..self
        }
    }

    /// The state with one reader fewer. The last reader of a buffer that is
    /// gone takes its descriptors along.
    pub open spec fn read_ended(self, guard: u64) -> Self {
        if !self.buffer_readers.contains_key(guard) {
            self
        } else if self.buffer_readers[guard] > 1 {
            State {
                buffer_readers: self.buffer_readers.insert(
                    guard,
                    (self.buffer_readers[guard] - 1) as u32,
                ),
                ..self
            }
        } else {
            let s = State { buffer_readers: self.buffer_readers.remove(guard), ..self };
            if s.retired_images.contains_key(guard) {
                State { retired_images: s.retired_images.remove(guard), ..s }.let_go(
                    plane_fds(s.retired_images[guard].planes),
                )
            } else {
                s
            }
        }
    }

    /// The state once everything known to have changed has been dealt with.
    pub open spec fn damage_cleared(self) -> Self {
        State { buffers: self.buffers.map_values(|b: BufferView| b.undamaged()), ..self }
    }
}

/// Whether one of some planes is in a descriptor's memory.
fn planes_have(planes: &Vec<DmabufPlane>, fd: Fd) -> (r: bool)
    ensures
        r == planes_name(planes@, fd),
{
    let mut i: usize = 0;
    while i < planes.len()
        invariant
            i <= planes@.len(),
            forall|j: int| 0 <= j < i ==> (#[trigger] planes@[j]).fd != fd,
        decreases planes@.len() - i,
    {
        if planes[i].fd == fd {
            return true;
        }
        i = i + 1;
    }
    false
}

fn plane_has(plane: Option<PendingPlane>, fd: Fd) -> (r: bool)
    ensures
        r == plane_names(plane, fd),
{
    match plane {
        Some(p) => p.plane.fd == fd,
        None => false,
    }
}

/// The descriptors some planes are in the memory of.
pub fn fds_of(planes: &Vec<DmabufPlane>) -> (r: Vec<Fd>)
    ensures
        r@ == plane_fds(planes@),
{
    let mut r: Vec<Fd> = Vec::new();
    let mut i: usize = 0;
    while i < planes.len()
        invariant
            i <= planes@.len(),
            r@.len() == i,
            forall|j: int| 0 <= j < i ==> r@[j] == (#[trigger] planes@[j]).fd,
        decreases planes@.len() - i,
    {
        r.push(planes[i].fd);
        i = i + 1;
    }
    assert(r@ =~= plane_fds(planes@));
    r
}

fn push_plane_fd(fds: &mut Vec<Fd>, plane: Option<PendingPlane>)
    ensures
        final(fds)@ == old(fds)@ + plane_fd(plane),
{
    if let Some(p) = plane {
        fds.push(p.plane.fd);
    }
    assert(fds@ =~= old(fds)@ + plane_fd(plane));
}

/// The descriptors of a buffer under construction.
pub fn fds_of_params(params: &BufferParams) -> (r: Vec<Fd>)
    ensures
        r@ == params_fds(*params),
{
    let mut r: Vec<Fd> = Vec::new();
    push_plane_fd(&mut r, params.plane0);
    push_plane_fd(&mut r, params.plane1);
    push_plane_fd(&mut r, params.plane2);
    push_plane_fd(&mut r, params.plane3);
    assert(r@ =~= params_fds(*params));
    r
}

impl CompositorState {
    /// Whether a buffer under construction still names a dma-buf descriptor.
    fn params_hold_fd(&self, fd: Fd) -> (r: bool)
        requires
            self.wf(),
        ensures
            r == exists|k: ClientObjectId|
                self@.dmabuf_params.contains_key(k) && params_name(
                    #[trigger] self@.dmabuf_params[k],
                    fd,
                ),
    {
        let keys = self.dmabuf_params.keys();
        let mut i: usize = 0;
        while i < keys.len()
            invariant
                self.wf(),
                i <= keys@.len(),
                table::lists(keys@, self@.dmabuf_params.dom()),
                forall|j: int|
                    0 <= j < i ==> !params_name(self@.dmabuf_params[#[trigger] keys@[j]], fd),
            decreases keys@.len() - i,
        {
            let k = keys[i];
            assert(keys@.contains(k));
            if let Some(params) = self.dmabuf_params.get(k) {
                if plane_has(params.plane0, fd) || plane_has(params.plane1, fd) || plane_has(
                    params.plane2,
                    fd,
                ) || plane_has(params.plane3, fd) {
                    assert(params_name(self@.dmabuf_params[k], fd));
                    return true;
                }
            }
            i = i + 1;
        }
        assert forall|k: ClientObjectId| self@.dmabuf_params.contains_key(k) implies !params_name(
            #[trigger] self@.dmabuf_params[k],
            fd,
        ) by {
            assert(keys@.contains(k));
        }
        false
    }

    /// Whether an import still to be answered names a dma-buf descriptor.
    fn imports_hold_fd(&self, fd: Fd) -> (r: bool)
        requires
            self.wf(),
        ensures
            r == exists|t: u64|
                self@.pending_dmabuf_imports.contains_key(t) && planes_name(
                    (#[trigger] self@.pending_dmabuf_imports[t]).image.planes,
                    fd,
                ),
    {
        let keys = self.pending_dmabuf_imports.keys();
        let mut i: usize = 0;
        while i < keys.len()
            invariant
                self.wf(),
                i <= keys@.len(),
                table::lists(keys@, self@.pending_dmabuf_imports.dom()),
                forall|j: int|
                    0 <= j < i ==> !planes_name(
                        self@.pending_dmabuf_imports[#[trigger] keys@[j]].image.planes,
                        fd,
                    ),
            decreases keys@.len() - i,
        {
            let k: u64 = keys[i];
            assert(keys@.contains(k));
            if let Some(pending) = self.pending_dmabuf_imports.get(k) {
                if planes_have(&pending.image.planes, fd) {
                    assert(planes_name(self@.pending_dmabuf_imports[k].image.planes, fd));
                    return true;
                }
            }
            i = i + 1;
        }
        assert forall|t: u64| self@.pending_dmabuf_imports.contains_key(t) implies !planes_name(
            (#[trigger] self@.pending_dmabuf_imports[t]).image.planes,
            fd,
        ) by {
            assert(keys@.contains(t));
        }
        false
    }

    /// Whether a buffer names a dma-buf descriptor.
    fn buffers_hold_fd(&self, fd: Fd) -> (r: bool)
        requires
            self.wf(),
        ensures
            r == exists|k: ClientObjectId|
                self@.buffers.contains_key(k) && kind_names((#[trigger] self@.buffers[k]).kind, fd),
    {
        let keys = self.buffers.keys();
        let mut i: usize = 0;
        while i < keys.len()
            invariant
                self.wf(),
                i <= keys@.len(),
                table::lists(keys@, self@.buffers.dom()),
                forall|j: int|
                    0 <= j < i ==> !kind_names(self@.buffers[#[trigger] keys@[j]].kind, fd),
            decreases keys@.len() - i,
        {
            let k = keys[i];
            assert(keys@.contains(k));
            if let Some(buffer) = self.buffers.get(k) {
                if let BufferKind::Dmabuf(image) = &buffer.kind {
                    if planes_have(&image.planes, fd) {
                        assert(kind_names(self@.buffers[k].kind, fd));
                        return true;
                    }
                }
            }
            i = i + 1;
        }
        assert forall|k: ClientObjectId| self@.buffers.contains_key(k) implies !kind_names(
            (#[trigger] self@.buffers[k]).kind,
            fd,
        ) by {
            assert(keys@.contains(k));
        }
        false
    }

    /// Whether somebody is reading a buffer that is gone through a descriptor.
    fn retired_hold_fd(&self, fd: Fd) -> (r: bool)
        requires
            self.wf(),
        ensures
            r == exists|g: u64|
                self@.retired_images.contains_key(g) && planes_name(
                    (#[trigger] self@.retired_images[g]).planes,
                    fd,
                ),
    {
        let keys = self.retired_images.keys();
        let mut i: usize = 0;
        while i < keys.len()
            invariant
                self.wf(),
                i <= keys@.len(),
                table::lists(keys@, self@.retired_images.dom()),
                forall|j: int|
                    0 <= j < i ==> !planes_name(
                        self@.retired_images[#[trigger] keys@[j]].planes,
                        fd,
                    ),
            decreases keys@.len() - i,
        {
            let k: u64 = keys[i];
            assert(keys@.contains(k));
            if let Some(image) = self.retired_images.get(k) {
                if planes_have(&image.planes, fd) {
                    assert(planes_name(self@.retired_images[k].planes, fd));
                    return true;
                }
            }
            i = i + 1;
        }
        assert forall|g: u64| self@.retired_images.contains_key(g) implies !planes_name(
            (#[trigger] self@.retired_images[g]).planes,
            fd,
        ) by {
            assert(keys@.contains(g));
        }
        false
    }

    /// Close the descriptors among these that nothing names any more.
    pub fn let_go(&mut self, fds: &Vec<Fd>)
        requires
            old(self).wf(),
        ensures
            final(self).wf(),
            final(self)@ == old(self)@.let_go(fds@),
    {
        let mut i: usize = 0;
        proof {
            state::lemma_each_ends(self@, fds@, letting_go());
        }
        while i < fds.len()
            invariant
                self.wf(),
                i <= fds@.len(),
                self@ == state::each(old(self)@, fds@.take(i as int), letting_go()),
            decreases fds@.len() - i,
        {
            proof {
                state::lemma_each_step(old(self)@, fds@, letting_go(), i as int);
            }
            let fd = fds[i];
            if !(self.params_hold_fd(fd) || self.imports_hold_fd(fd) || self.buffers_hold_fd(fd)
                || self.retired_hold_fd(fd)) {
                self.close(fd);
            }
            i = i + 1;
        }
        proof {
            state::lemma_each_ends(old(self)@, fds@, letting_go());
        }
    }

    /// Take note of a pool, and of whether its memory could be mapped.
    ///
    /// Returns false if the pool could not be mapped, which is a client error:
    /// the file is unreadable or smaller than the pool it declared.
    pub fn register_shm_pool(
        &mut self,
        client_id: u32,
        pool_id: u32,
        fd: Fd,
        size: u32,
        mapped: bool,
    ) -> (r: bool)
        requires
            old(self).wf(),
        ensures
            final(self).wf(),
            final(self)@ == old(self)@.pool_registered(client_id, pool_id, fd, size, mapped),
            r == mapped,
    {
        // Reusing a live object id is a protocol error, rejected before we get
        // here. Guard anyway: a plain insert would drop the displaced pool
        // without closing it.
        if let Some(displaced) = self.shm_pools.get((client_id, pool_id)) {
            let displaced_fd = displaced.fd;
            self.close(displaced_fd);
        }
        self.shm_pools.insert(
            (client_id, pool_id),
            ShmPool { client_id, fd, size, mapped, dead: false },
        );
        mapped
    }

    /// The buffers in a pool, in order.
    fn pool_buffers(&self, client_id: u32, pool_id: u32) -> (r: Vec<ClientObjectId>)
        requires
            self.wf(),
        ensures
            r@ == self@.pool_buffers(client_id, pool_id),
    {
        let keys = self.buffers.keys();
        let ghost p = in_pool(self@.buffers, client_id, pool_id);
        let mut r: Vec<ClientObjectId> = Vec::new();
        let mut i: usize = 0;
        proof {
            reveal(Seq::filter);
            assert(keys@.take(0) =~= Seq::empty());
        }
        while i < keys.len()
            invariant
                self.wf(),
                i <= keys@.len(),
                table::lists(keys@, self@.buffers.dom()),
                p == in_pool(self@.buffers, client_id, pool_id),
                r@ == keys@.take(i as int).filter(p),
            decreases keys@.len() - i,
        {
            let k = keys[i];
            proof {
                assert(keys@.contains(k));
                seqs::lemma_filter_step(keys@, p, i as int);
            }
            if k.0 == client_id {
                if let Some(buffer) = self.buffers.get(k) {
                    if let BufferKind::Shm(b) = &buffer.kind {
                        if b.pool_id == pool_id {
                            r.push(k);
                        }
                    }
                }
            }
            i = i + 1;
        }
        assert(keys@.take(i as int) =~= keys@);
        r
    }

    /// Free pool resources if the pool has been destroyed and no buffers
    /// still reference it.
    fn try_cleanup_pool(&mut self, client_id: u32, pool_id: u32)
        requires
            old(self).wf(),
        ensures
            final(self).wf(),
            final(self)@ == old(self)@.pool_collected(client_id, pool_id),
    {
        let pool_is_dead = match self.shm_pools.get((client_id, pool_id)) {
            Some(pool) => pool.dead,
            None => false,
        };
        if !pool_is_dead {
            return ;
        }
        if self.pool_buffers(client_id, pool_id).len() == 0 {
            if let Some(pool) = self.shm_pools.remove((client_id, pool_id)) {
                self.close(pool.fd);
            }
        }
    }

    /// A client is done with a pool. It is freed once no buffers reference it.
    pub fn destroy_shm_pool(&mut self, client_id: u32, pool_id: u32)
        requires
            old(self).wf(),
        ensures
            final(self).wf(),
            final(self)@ == old(self)@.pool_destroyed(client_id, pool_id),
    {
        if let Some(pool) = self.shm_pools.get_mut((client_id, pool_id)) {
            pool.dead = true;
        }
        self.try_cleanup_pool(client_id, pool_id);
    }

    /// Take note of a pool's new size, and of whether its memory could be
    /// mapped again at that size.
    ///
    /// Returns false if the resized pool could not be mapped - see
    /// [`Self::register_shm_pool`].
    pub fn resize_shm_pool(
        &mut self,
        client_id: u32,
        pool_id: u32,
        new_size: u32,
        mapped: bool,
    ) -> (r: bool)
        requires
            old(self).wf(),
        ensures
            final(self).wf(),
            final(self)@ == old(self)@.pool_resized(client_id, pool_id, new_size, mapped),
            r == (mapped && final(self)@.shm_pools.contains_key((client_id, pool_id))),
    {
        self.mark_pool_damaged(client_id, pool_id);
        match self.shm_pools.get_mut((client_id, pool_id)) {
            Some(pool) => {
                pool.size = new_size;
                pool.mapped = mapped;
                mapped
            },
            None => false,
        }
    }

    /// Hand out the next content serial.
    pub fn next_content_serial(&mut self) -> (r: u64)
        requires
            old(self).wf(),
        ensures
            final(self).wf(),
            final(self)@ == old(self)@.serial_taken(),
            r == old(self)@.fresh_serial(),
    {
        self.next_content_serial = self.next_content_serial.saturating_add(1);
        self.next_content_serial
    }

    /// Forget what a buffer id stands for, its readers aside.
    fn forget_buffer(&mut self, key: ClientObjectId)
        requires
            old(self).wf(),
        ensures
            final(self).wf(),
            final(self)@ == old(self)@.buffer_forgotten(key),
    {
        if let Some(buffer) = self.buffers.remove(key) {
            if let BufferKind::Dmabuf(image) = buffer.kind {
                if self.buffer_readers.contains_key(buffer.content_serial) {
                    self.retired_images.insert(buffer.content_serial, image);
                } else {
                    let fds = fds_of(&image.planes);
                    self.let_go(&fds);
                }
            }
        }
    }

    /// Put a buffer in shared memory in the registry.
    ///
    /// A re-registered id is a fresh buffer: any release still owed on the old
    /// one, which the client has replaced rather than waited for, is forgotten.
    pub fn register_buffer(
        &mut self,
        client_id: u32,
        buffer_id: u32,
        pool_id: u32,
        offset: i32,
        width: i32,
        height: i32,
        stride: i32,
        format: u32,
    )
        requires
            old(self).wf(),
        ensures
            final(self).wf(),
            final(self)@ == old(self)@.shm_registered(
                client_id,
                buffer_id,
                pool_id,
                offset,
                width,
                height,
                stride,
                format,
            ),
    {
        self.forget_buffer((client_id, buffer_id));
        let content_serial: u64 = self.next_content_serial();
        self.releasing_buffers.remove((client_id, buffer_id));
        let mapped = match self.shm_pools.get((client_id, pool_id)) {
            Some(pool) => pool.mapped,
            None => false,
        };
        if mapped {
            self.buffer_guards.insert((client_id, buffer_id), content_serial);
        }
        self.buffers.insert(
            (client_id, buffer_id),
            Buffer {
                client_id,
                width,
                height,
                content_serial,
                // A buffer nobody has read yet is wholly new.
                kind: BufferKind::Shm(ShmBuffer { pool_id, offset, stride, format, damage: None }),
            },
        );
    }

    /// Put an imported buffer in the registry, and give back the serial it got.
    pub fn register_dmabuf(
        &mut self,
        client_id: u32,
        buffer_id: u32,
        image: DmabufImage,
        width: i32,
        height: i32,
    ) -> (r: u64)
        requires
            old(self).wf(),
        ensures
            final(self).wf(),
            final(self)@ == old(self)@.dmabuf_registered(
                client_id,
                buffer_id,
                image@,
                width,
                height,
            ),
            r == final(self)@.buffers[(client_id, buffer_id)].content_serial,
    {
        self.forget_buffer((client_id, buffer_id));
        let content_serial: u64 = self.next_content_serial();
        self.releasing_buffers.remove((client_id, buffer_id));
        self.buffers.insert(
            (client_id, buffer_id),
            Buffer { client_id, width, height, content_serial, kind: BufferKind::Dmabuf(image) },
        );
        content_serial
    }

    /// Put a buffer that could not be made in the registry. It draws nothing.
    pub fn register_failed(&mut self, client_id: u32, buffer_id: u32, width: i32, height: i32)
        requires
            old(self).wf(),
        ensures
            final(self).wf(),
            final(self)@ == old(self)@.failed_registered(client_id, buffer_id, width, height),
    {
        self.forget_buffer((client_id, buffer_id));
        let content_serial: u64 = self.next_content_serial();
        self.buffers.insert(
            (client_id, buffer_id),
            Buffer { client_id, width, height, content_serial, kind: BufferKind::Failed },
        );
    }

    /// A client has destroyed a buffer, so it is not waiting to hear that it
    /// may reuse it.
    pub fn destroy_buffer(&mut self, client_id: u32, buffer_id: u32)
        requires
            old(self).wf(),
        ensures
            final(self).wf(),
            final(self)@ == old(self)@.buffer_destroyed(client_id, buffer_id),
    {
        let pool_id: Option<u32> = match self.buffers.get((client_id, buffer_id)) {
            Some(buffer) => match &buffer.kind {
                BufferKind::Shm(b) => Some(b.pool_id),
                _ => None,
            },
            None => None,
        };
        self.forget_buffer((client_id, buffer_id));
        self.buffer_guards.remove((client_id, buffer_id));
        self.releasing_buffers.remove((client_id, buffer_id));
        if let Some(pool_id) = pool_id {
            self.try_cleanup_pool(client_id, pool_id);
        }
    }

    /// Record that a buffer's contents have changed, and how much of it.
    ///
    /// An empty `damage` means the whole buffer must be treated as new. Damage
    /// accumulates across changes nobody has read yet: if two commits land
    /// between two scenes, the second must not erase what the first reported.
    ///
    /// A buffer on the GPU keeps its serial. It is sampled where it lies, and a
    /// new serial would only have a good import thrown away.
    pub fn mark_buffer_damaged(&mut self, client_id: u32, buffer_id: u32, damage: &[TextureRect])
        requires
            old(self).wf(),
        ensures
            final(self).wf(),
            final(self)@ == old(self)@.damaged(client_id, buffer_id, damage@),
    {
        let serial: u64 = self.next_content_serial();
        if let Some(buffer) = self.buffers.get_mut((client_id, buffer_id)) {
            if let BufferKind::Shm(shm) = &mut buffer.kind {
                buffer.content_serial = serial;
                // Widening to "everything" is sticky until the damage is read:
                // once one change could not be described, no later rectangle
                // can narrow the window back down.
                let known = shm.damage.take();
                if damage.len() > 0 {
                    if let Some(mut rects) = known {
                        let ghost before = rects@;
                        rects.extend_from_slice(damage);
                        assert(rects@ =~= before + damage@);
                        shm.damage = Some(rects);
                    }
                }
            }
        }
    }

    /// Mark every buffer backed by a pool as wholly changed.
    ///
    /// Used when the mapping itself moves, which invalidates any copy taken
    /// from it regardless of what the client did or did not draw.
    fn mark_pool_damaged(&mut self, client_id: u32, pool_id: u32)
        requires
            old(self).wf(),
        ensures
            final(self).wf(),
            final(self)@ == old(self)@.pool_damaged(client_id, pool_id),
    {
        let keys = self.pool_buffers(client_id, pool_id);
        let nothing: Vec<TextureRect> = Vec::new();
        let mut i: usize = 0;
        proof {
            state::lemma_each_ends(self@, keys@, damaging());
        }
        while i < keys.len()
            invariant
                self.wf(),
                i <= keys@.len(),
                nothing@ == Seq::<TextureRect>::empty(),
                self@ == state::each(old(self)@, keys@.take(i as int), damaging()),
            decreases keys@.len() - i,
        {
            proof {
                state::lemma_each_step(old(self)@, keys@, damaging(), i as int);
            }
            let key = keys[i];
            self.mark_buffer_damaged(key.0, key.1, nothing.as_slice());
            i = i + 1;
        }
        proof {
            state::lemma_each_ends(old(self)@, keys@, damaging());
        }
    }

    /// What a buffer's readers read through.
    pub fn reader_of(&self, key: ClientObjectId) -> (r: Option<u64>)
        requires
            self.wf(),
        ensures
            r == self@.reader_of(key),
    {
        match self.buffers.get(key) {
            Some(buffer) => match &buffer.kind {
                BufferKind::Shm(_) => match self.buffer_guards.get(key) {
                    Some(guard) => Some(*guard),
                    None => None,
                },
                BufferKind::Dmabuf(_) => Some(buffer.content_serial),
                BufferKind::Failed => None,
            },
            None => None,
        }
    }

    /// Whether anything is still reading a buffer's memory.
    ///
    /// True only while some frame borrowing it is alive. A buffer with no guard
    /// at all - destroyed, or never mapped - counts as idle.
    pub fn buffer_is_being_read(&self, key: ClientObjectId) -> (r: bool)
        requires
            self.wf(),
        ensures
            r == self@.being_read(key),
    {
        match self.reader_of(key) {
            Some(guard) => self.buffer_readers.contains_key(guard),
            None => false,
        }
    }

    /// Somebody has started to read.
    pub fn begin_read(&mut self, guard: u64)
        requires
            old(self).wf(),
        ensures
            final(self).wf(),
            final(self)@ == old(self)@.read_begun(guard),
    {
        let readers: u32 = match self.buffer_readers.get(guard) {
            Some(n) => *n,
            None => 0,
        };
        self.buffer_readers.insert(guard, readers.saturating_add(1));
    }

    /// Somebody has stopped reading. The last reader of a dma-buf whose buffer
    /// is gone is what keeps its descriptors open.
    pub fn end_read(&mut self, guard: u64)
        requires
            old(self).wf(),
        ensures
            final(self).wf(),
            final(self)@ == old(self)@.read_ended(guard),
    {
        let readers: u32 = match self.buffer_readers.get(guard) {
            Some(n) => *n,
            None => {
                return ;
            },
        };
        if readers > 1 {
            self.buffer_readers.insert(guard, readers - 1);
            return ;
        }
        self.buffer_readers.remove(guard);
        if let Some(image) = self.retired_images.remove(guard) {
            let fds = fds_of(&image.planes);
            self.let_go(&fds);
        }
    }

    /// Forget the damage accumulated so far, having acted on it.
    ///
    /// Resets to "nothing has changed" rather than to "unknown" - the two are
    /// opposites, and clearing to the wrong one would either force a full
    /// upload every frame or skip a real change.
    pub fn clear_buffer_damage(&mut self)
        requires
            old(self).wf(),
        ensures
            final(self).wf(),
            final(self)@ == old(self)@.damage_cleared(),
    {
        let keys = self.buffers.keys();
        let ghost before = self@;
        let mut i: usize = 0;
        while i < keys.len()
            invariant
                self.wf(),
                i <= keys@.len(),
                table::lists(keys@, before.buffers.dom()),
                self@ == (State { buffers: self@.buffers, ..before }),
                self@.buffers.dom() == before.buffers.dom(),
                forall|j: int|
                    0 <= j < i ==> self@.buffers[#[trigger] keys@[j]]
                        == before.buffers[keys@[j]].undamaged(),
                forall|j: int|
                    i <= j < keys@.len() ==> self@.buffers[#[trigger] keys@[j]]
                        == before.buffers[keys@[j]],
            decreases keys@.len() - i,
        {
            let k = keys[i];
            proof {
                assert(keys@.contains(k));
                table::lemma_increasing_apart(keys@, i as int);
            }
            if let Some(buffer) = self.buffers.get_mut(k) {
                if let BufferKind::Shm(shm) = &mut buffer.kind {
                    shm.damage = Some(Vec::new());
                }
            }
            assert(self@.buffers.dom() =~= before.buffers.dom());
            i = i + 1;
        }
        proof {
            assert forall|k: ClientObjectId| before.buffers.contains_key(k) implies
                #[trigger] self@.buffers[k] == before.buffers[k].undamaged() by {
                assert(keys@.contains(k));
            }
            assert(self@.buffers =~= before.damage_cleared().buffers);
        }
    }
}

/// What changes about a buffer that is uploaded shows in its serial: the new one
/// is behind every serial there has been.
pub proof fn law_changed_contents_have_a_new_serial(
    s: State,
    client_id: u32,
    buffer_id: u32,
    damage: Seq<TextureRect>,
)
    requires
        s.buffers.contains_key((client_id, buffer_id)),
        s.buffers[(client_id, buffer_id)].kind is Shm,
        s.next_content_serial < u64::MAX,
    ensures
        s.damaged(client_id, buffer_id, damage).buffers[(client_id, buffer_id)].content_serial
            > s.next_content_serial,
        s.damaged(client_id, buffer_id, damage).next_content_serial > s.next_content_serial,
{
}

/// Drawing into a dma-buf does not make it another image: the backend is
/// already looking at the memory drawn into.
pub proof fn law_drawing_into_a_dmabuf_keeps_the_import(
    s: State,
    client_id: u32,
    buffer_id: u32,
    damage: Seq<TextureRect>,
)
    requires
        s.buffers.contains_key((client_id, buffer_id)),
        s.buffers[(client_id, buffer_id)].kind is Dmabuf,
    ensures
        s.damaged(client_id, buffer_id, damage).buffers == s.buffers,
{
}

/// A change nobody described cannot be narrowed down again by one that
/// somebody did, until all of it has been dealt with.
pub proof fn law_undescribed_damage_stays(
    known: Option<Seq<TextureRect>>,
    more: Seq<TextureRect>,
    even_more: Seq<TextureRect>,
)
    ensures
        known is None || more.len() == 0 ==> widened(widened(known, more), even_more) is None,
        known is Some && more.len() > 0 && even_more.len() > 0 ==> widened(
            widened(known, more),
            even_more,
        ) == Some(known.unwrap() + more + even_more),
{
}

/// A reader that has come and gone leaves things as they were, and while it
/// reads the buffer counts as being read.
pub proof fn law_a_reader_comes_and_goes(s: State, key: ClientObjectId, guard: u64)
    requires
        s.reader_of(key) == Some(guard),
        s.buffer_readers.contains_key(guard) ==> 0 < s.buffer_readers[guard] < u32::MAX,
        !s.retired_images.contains_key(guard),
    ensures
        s.read_begun(guard).being_read(key),
        s.read_begun(guard).read_ended(guard) == s,
{
    let after = s.read_begun(guard).read_ended(guard);
    assert(after.buffer_readers =~= s.buffer_readers);
}

/// A buffer registered anew is not taken for the one somebody is still reading
/// under the same name.
pub proof fn law_a_new_buffer_has_no_readers(
    s: State,
    client_id: u32,
    buffer_id: u32,
    pool_id: u32,
    offset: i32,
    size: (i32, i32),
    stride: i32,
    format: u32,
)
    requires
        s.next_content_serial < u64::MAX,
        !s.buffer_readers.contains_key(s.fresh_serial()),
        s.shm_pools.contains_key((client_id, pool_id)),
        s.shm_pools[(client_id, pool_id)].mapped,
    ensures
        !s.shm_registered(
            client_id,
            buffer_id,
            pool_id,
            offset,
            size.0,
            size.1,
            stride,
            format,
        ).being_read((client_id, buffer_id)),
{
    lemma_forgetting_only_moves_memory(s, (client_id, buffer_id));
}

impl State {
    /// No two buffers have the same content serial, and none has one that has
    /// still to be handed out.
    pub open spec fn serials_apart(self) -> bool {
        &&& forall|k: ClientObjectId|
            self.buffers.contains_key(k) ==> (#[trigger] self.buffers[k]).content_serial
                <= self.next_content_serial
        &&& forall|j: ClientObjectId, k: ClientObjectId|
            self.buffers.contains_key(j) && self.buffers.contains_key(k) && j != k ==> (
            #[trigger] self.buffers[j]).content_serial != (
            #[trigger] self.buffers[k]).content_serial
    }
}

/// However buffers come, change and go, no two ever share a content serial,
/// until there are no more serials to hand out.
pub proof fn law_no_two_contents_share_a_serial(
    s: State,
    client_id: u32,
    buffer_id: u32,
    pool_id: u32,
    offset: i32,
    size: (i32, i32),
    stride: i32,
    format: u32,
    image: DmabufImageView,
    damage: Seq<TextureRect>,
)
    requires
        s.serials_apart(),
        s.next_content_serial + s.pool_buffers(client_id, pool_id).len() < u64::MAX,
    ensures
        s.shm_registered(
            client_id,
            buffer_id,
            pool_id,
            offset,
            size.0,
            size.1,
            stride,
            format,
        ).serials_apart(),
        s.dmabuf_registered(client_id, buffer_id, image, size.0, size.1).serials_apart(),
        s.failed_registered(client_id, buffer_id, size.0, size.1).serials_apart(),
        s.damaged(client_id, buffer_id, damage).serials_apart(),
        s.pool_damaged(client_id, pool_id).serials_apart(),
        s.damage_cleared().serials_apart(),
        s.buffer_destroyed(client_id, buffer_id).serials_apart(),
{
    let key = (client_id, buffer_id);
    lemma_forgetting_only_moves_memory(s, key);
    lemma_damaging_keeps_serials_apart(s, s.pool_buffers(client_id, pool_id));
    let cleared = s.damage_cleared();
    assert forall|k: ClientObjectId| cleared.buffers.contains_key(k) implies s.buffers.contains_key(
        k,
    ) && (#[trigger] cleared.buffers[k]).content_serial == s.buffers[k].content_serial by {}
}

/// Taking some buffers for wholly changed keeps the serials apart, and takes
/// one for each of them.
proof fn lemma_damaging_keeps_serials_apart(s: State, keys: Seq<ClientObjectId>)
    requires
        s.serials_apart(),
        s.next_content_serial + keys.len() < u64::MAX,
    ensures
        state::each(s, keys, damaging()).serials_apart(),
        state::each(s, keys, damaging()).next_content_serial == s.next_content_serial + keys.len(),
    decreases keys.len(),
{
    if keys.len() > 0 {
        lemma_damaging_keeps_serials_apart(s, keys.drop_last());
    }
}

/// Forgetting a buffer takes it out, and moves nothing else but what its readers
/// still read and what is to be closed.
pub proof fn lemma_forgetting_only_moves_memory(s: State, key: ClientObjectId)
    ensures
        s.buffer_forgotten(key) == (State {
            buffers: s.buffers.remove(key),
            retired_images: s.buffer_forgotten(key).retired_images,
            effects: s.buffer_forgotten(key).effects,
            ..s
        }),
{
    let gone = State { buffers: s.buffers.remove(key), ..s };
    if s.buffers.contains_key(key) {
        match s.buffers[key].kind {
            BufferKindView::Dmabuf(image) => {
                lemma_letting_go_only_closes(gone, plane_fds(image.planes));
            },
            _ => {},
        }
    } else {
        assert(s.buffers.remove(key) =~= s.buffers);
    }
}

/// Letting go of descriptors leaves everything as it is but for what is to be
/// closed.
pub proof fn lemma_letting_go_only_closes(s: State, fds: Seq<Fd>)
    ensures
        s.let_go(fds) == (State { effects: s.let_go(fds).effects, ..s }),
{
    let inv = |a: State| a == (State { effects: a.effects, ..s });
    state::lemma_each_keeps(s, fds, letting_go(), inv);
}

} // verus!

//! `zwp_linux_dmabuf_v1` protocol handler.
//!
//! How a client hands the compositor a buffer it has already rendered on the
//! GPU. The client describes the descriptors through a
//! [`zwp_linux_buffer_params_v1`](super::zwp_linux_buffer_params) and gets back
//! a `wl_buffer` it can attach like any other; nothing is copied, and the
//! backend samples the client's own memory.
//!
//! Version 3 is what is advertised. On bind the compositor announces what it
//! can import: `modifier` events for a version 3 client, which carry the layout
//! alongside the format, and `format` events for an older one, which cannot say
//! anything about layout. Version 4 forbids both and replaces them with
//! `zwp_linux_dmabuf_feedback_v1` - a format table over a descriptor, a main
//! device, and per-surface tranches - which is a good deal more machinery for
//! clients that all fall back to version 3 cleanly.
//!
//! The global is advertised only once the backend has confirmed it can actually
//! import. Offering dma-buf a compositor cannot draw is worse than offering
//! none: the client allocates against the list it is given and has nothing left
//! to fall back to.

use crate::client::ObjectType;
use crate::dmabuf::{DmabufFormat, DmabufFormatView, DRM_FORMAT_MOD_INVALID};
use crate::objects::BufferParams;
use crate::protocol::unknown_request;
use crate::state::{self, CompositorState, State};
use crate::table;
use crate::wire::{
    self, tell1, tell3, ArgReader, Request, WaylandProtocolMessageWithClientInfo,
};
use vstd::prelude::*;

verus! {

/// The version advertised. See the module header for why not 4.
pub const VERSION: u32 = 3;

/// First version that takes `modifier` events instead of `format` ones.
pub const MODIFIER_VERSION: u32 = 3;

// Request opcodes
pub const DESTROY: u16 = 0;

pub const CREATE_PARAMS: u16 = 1;

// Event opcodes
pub const FORMAT: u16 = 0;

pub const MODIFIER: u16 = 1;

/// How many buffers a client may have under construction at once. Each can pin
/// a descriptor per plane and is destroyed only when the client says so, so an
/// unbounded number of them is an unbounded number of open descriptors.
pub const MAX_LIVE_PARAMS: usize = 64;

/// The first 32 bits of a modifier.
pub open spec fn high_half(modifier: u64) -> u32 {
    (modifier / 0x1_0000_0000) as u32
}

/// The last 32 bits of a modifier.
pub open spec fn low_half(modifier: u64) -> u32 {
    (modifier % 0x1_0000_0000) as u32
}

/// The modifiers to advertise for one format. The implicit layout is always
/// among them: it is how a client says "no explicit layout, work it out from
/// the descriptor", and it is the only thing a driver that named no modifiers
/// can take.
pub open spec fn advertised(format: DmabufFormatView) -> Seq<u64> {
    format.modifiers.push(DRM_FORMAT_MOD_INVALID)
}

/// Tell a client of one layout of a format.
pub open spec fn telling_modifier(client_id: u32, dmabuf_id: u32, fourcc: u32) -> spec_fn(
    State,
    u64,
) -> State {
    |s: State, m: u64|
        s.sent(client_id, wire::told3(dmabuf_id, MODIFIER, fourcc, high_half(m), low_half(m)))
}

/// Tell a client of one format.
pub open spec fn telling_format(client_id: u32, dmabuf_id: u32) -> spec_fn(
    State,
    DmabufFormatView,
) -> State {
    |s: State, f: DmabufFormatView| s.format_told(client_id, dmabuf_id, f)
}

impl State {
    /// The state once a client knows of a format. An old one can only be told
    /// that it works; which layouts do is not expressible to it.
    pub open spec fn format_told(self, client_id: u32, dmabuf_id: u32, f: DmabufFormatView) -> Self {
        if self.speaks(client_id, dmabuf_id, MODIFIER_VERSION) {
            state::each(self, advertised(f), telling_modifier(client_id, dmabuf_id, f.fourcc))
        } else {
            self.sent(client_id, wire::told1(dmabuf_id, FORMAT, f.fourcc))
        }
    }

    /// The state once a client knows what can be imported.
    pub open spec fn formats_told(self, client_id: u32, dmabuf_id: u32) -> Self {
        state::each(self, self.dmabuf_formats, telling_format(client_id, dmabuf_id))
    }

    /// The state once a client has started describing a buffer.
    pub open spec fn params_asked(self, r: Request) -> Self {
        match r.word(0) {
            Some(id) => if table::client_keys(self.dmabuf_params.dom(), r.client).len()
                >= MAX_LIVE_PARAMS {
                self.errored(
                    r.client,
                    r.object,
                    0,
                    "too many zwp_linux_buffer_params_v1 objects held open"@,
                )
            } else {
                let s = self.registered(r.client, id, ObjectType::ZwpLinuxBufferParams);
                if self.can_register(r.client, id) {
                    State {
                        dmabuf_params: s.dmabuf_params.insert(
                            (r.client, id),
                            BufferParams::fresh(),
                        ),
                        ..s
                    }
                } else {
                    s
                }
            },
            None => self.errored(
                r.client,
                r.object,
                0,
                "zwp_linux_dmabuf_v1.create_params: malformed args"@,
            ),
        }
    }

    /// The state once a `zwp_linux_dmabuf_v1` request has been handled.
    pub open spec fn zwp_linux_dmabuf_handled(self, r: Request) -> Self {
        if r.op == DESTROY {
            self.unregistered(r.client, r.object)
        } else if r.op == CREATE_PARAMS {
            self.params_asked(r)
        } else {
            self.rejected(r, "zwp_linux_dmabuf_v1"@)
        }
    }
}

pub fn handle(state: &mut CompositorState, msg: &WaylandProtocolMessageWithClientInfo)
    requires
        old(state).wf(),
    ensures
        final(state).wf(),
        final(state)@ == old(state)@.zwp_linux_dmabuf_handled(msg@),
{
    proof {
        reveal_strlit("zwp_linux_dmabuf_v1");
    }
    match msg.message.op_code {
        // Destroying the factory leaves the objects it made alone: a
        // `wl_buffer` outlives the params it came from, and those outlive this.
        DESTROY => state.unregister(msg.client_id, msg.message.object_id),
        CREATE_PARAMS => handle_create_params(state, msg),
        _ => unknown_request(state, msg, "zwp_linux_dmabuf_v1"),
    }
}

/// Start describing a buffer.
fn handle_create_params(state: &mut CompositorState, msg: &WaylandProtocolMessageWithClientInfo)
    requires
        old(state).wf(),
    ensures
        final(state).wf(),
        final(state)@ == old(state)@.params_asked(msg@),
{
    let mut args = ArgReader::new(msg.message.args.as_slice());
    let params_id: u32 = match args.new_id() {
        Some(id) => id,
        None => {
            proof {
                reveal_strlit("zwp_linux_dmabuf_v1.create_params: malformed args");
            }
            state.fail(
                msg.client_id,
                msg.message.object_id,
                0,
                "zwp_linux_dmabuf_v1.create_params: malformed args",
            );
            return ;
        },
    };
    let live = state.dmabuf_params.keys_of(msg.client_id);
    if live.len() >= MAX_LIVE_PARAMS {
        proof {
            reveal_strlit("too many zwp_linux_buffer_params_v1 objects held open");
        }
        state.fail(
            msg.client_id,
            msg.message.object_id,
            0,
            "too many zwp_linux_buffer_params_v1 objects held open",
        );
        return ;
    }
    if state.register(msg.client_id, params_id, ObjectType::ZwpLinuxBufferParams) {
        state.dmabuf_params.insert((msg.client_id, params_id), BufferParams::empty());
    }
}

/// Tell a client of every layout of a format.
fn send_modifiers(
    state: &mut CompositorState,
    client_id: u32,
    dmabuf_id: u32,
    fourcc: u32,
    modifiers: &Vec<u64>,
)
    requires
        old(state).wf(),
    ensures
        final(state).wf(),
        final(state)@ == state::each(
            old(state)@,
            modifiers@,
            telling_modifier(client_id, dmabuf_id, fourcc),
        ),
{
    let ghost start = state@;
    let ghost f = telling_modifier(client_id, dmabuf_id, fourcc);
    let mut i: usize = 0;
    proof {
        state::lemma_each_ends(start, modifiers@, f);
    }
    while i < modifiers.len()
        invariant
            state.wf(),
            i <= modifiers@.len(),
            f == telling_modifier(client_id, dmabuf_id, fourcc),
            state@ == state::each(start, modifiers@.take(i as int), f),
        decreases modifiers@.len() - i,
    {
        proof {
            state::lemma_each_step(start, modifiers@, f, i as int);
        }
        let m: u64 = modifiers[i];
        // Hi first: a modifier is 64 bits and an argument is 32.
        let (hi, lo): (u32, u32) = ((m / 0x1_0000_0000) as u32, (m % 0x1_0000_0000) as u32);
        state.send(client_id, tell3(dmabuf_id, MODIFIER, fourcc, hi, lo));
        i = i + 1;
    }
}

/// The modifiers to advertise for each format.
fn advertised_modifiers(formats: &Vec<DmabufFormat>) -> (r: Vec<(u32, Vec<u64>)>)
    ensures
        r@.len() == formats@.len(),
        forall|i: int|
            0 <= i < r@.len() ==> (#[trigger] r@[i]).0 == formats@[i].fourcc && r@[i].1@
                == advertised(formats@[i]@),
{
    let mut r: Vec<(u32, Vec<u64>)> = Vec::new();
    let mut i: usize = 0;
    while i < formats.len()
        invariant
            i <= formats@.len(),
            r@.len() == i,
            forall|k: int|
                0 <= k < r@.len() ==> (#[trigger] r@[k]).0 == formats@[k].fourcc && r@[k].1@
                    == advertised(formats@[k]@),
        decreases formats@.len() - i,
    {
        let named = &formats[i].modifiers;
        let mut all: Vec<u64> = Vec::new();
        let mut j: usize = 0;
        while j < named.len()
            invariant
                j <= named@.len(),
                all@ == named@.take(j as int),
            decreases named@.len() - j,
        {
            all.push(named[j]);
            assert(named@.take(j as int + 1) =~= named@.take(j as int).push(named@[j as int]));
            j = j + 1;
        }
        assert(named@.take(j as int) =~= named@);
        all.push(DRM_FORMAT_MOD_INVALID);
        r.push((formats[i].fourcc, all));
        i = i + 1;
    }
    r
}

/// Tell a client what can be imported, at the moment it binds.
pub fn send_formats(state: &mut CompositorState, client_id: u32, dmabuf_id: u32)
    requires
        old(state).wf(),
    ensures
        final(state).wf(),
        final(state)@ == old(state)@.formats_told(client_id, dmabuf_id),
{
    let list = advertised_modifiers(&state.dmabuf_formats);
    let ghost start = state@;
    let ghost formats = state@.dmabuf_formats;
    let ghost f = telling_format(client_id, dmabuf_id);
    let mut i: usize = 0;
    proof {
        state::lemma_each_ends(start, formats, f);
        assert forall|k: int| 0 <= k < formats.len() implies (#[trigger] list@[k]).0
            == formats[k].fourcc && list@[k].1@ == advertised(formats[k]) by {
            assert(formats[k] == state.dmabuf_formats@[k]@);
        }
    }
    while i < list.len()
        invariant
            state.wf(),
            i <= list@.len(),
            list@.len() == formats.len(),
            f == telling_format(client_id, dmabuf_id),
            forall|k: int|
                0 <= k < formats.len() ==> (#[trigger] list@[k]).0 == formats[k].fourcc
                    && list@[k].1@ == advertised(formats[k]),
            state@ == state::each(start, formats.take(i as int), f),
        decreases list@.len() - i,
    {
        proof {
            state::lemma_each_step(start, formats, f, i as int);
        }
        let fourcc: u32 = list[i].0;
        if state.speaks(client_id, dmabuf_id, MODIFIER_VERSION) {
            send_modifiers(state, client_id, dmabuf_id, fourcc, &list[i].1);
        } else {
            // All an old client can be told is that the format works; which
            // layouts do is not expressible before version 3.
            state.send(client_id, tell1(dmabuf_id, FORMAT, fourcc));
        }
        i = i + 1;
    }
}

} // verus!

//! `wl_output` protocol handler.
//!
//! Each display is a global of its own. A client that binds one is told where
//! it is, what modes it has, and what it is called.

use crate::protocol::unknown_request;
use crate::shared::{OutputId, OutputMode, OutputSubpixel, OutputTransform, OutputView};
use crate::state::{self, CompositorState, State};
use crate::table;
use crate::windows::find_output;
use crate::wire::{
    self, build_message, tell0, tell1, tell4, ArgWriter, Message, Request, WaylandProtocolMessage,
    WaylandProtocolMessageWithClientInfo,
};
use crate::workspace::ClientObjectId;
use vstd::prelude::*;

verus! {

// Request opcodes
pub const RELEASE: u16 = 0;

// Event opcodes
pub const GEOMETRY: u16 = 0;

pub const MODE: u16 = 1;

pub const DONE: u16 = 2;

pub const SCALE: u16 = 3;

pub const NAME: u16 = 4;

pub const DESCRIPTION: u16 = 5;

/// The version at which `scale` and `done` appear.
pub const DONE_SINCE: u32 = 2;

/// The version at which `name` and `description` appear.
pub const NAME_SINCE: u32 = 4;

impl OutputSubpixel {
    /// The number a subpixel layout goes by.
    pub open spec fn number(self) -> u32 {
        match self {
            OutputSubpixel::Unknown => 0,
            OutputSubpixel::NoSubpixels => 1,
            OutputSubpixel::HorizontalRgb => 2,
            OutputSubpixel::HorizontalBgr => 3,
            OutputSubpixel::VerticalRgb => 4,
            OutputSubpixel::VerticalBgr => 5,
        }
    }

    /// The number a subpixel layout goes by.
    pub fn to_number(self) -> (r: u32)
        ensures
            r == self.number(),
    {
        match self {
            OutputSubpixel::Unknown => 0,
            OutputSubpixel::NoSubpixels => 1,
            OutputSubpixel::HorizontalRgb => 2,
            OutputSubpixel::HorizontalBgr => 3,
            OutputSubpixel::VerticalRgb => 4,
            OutputSubpixel::VerticalBgr => 5,
        }
    }
}

impl OutputTransform {
    /// The number a transform goes by.
    pub open spec fn number(self) -> u32 {
        match self {
            OutputTransform::Normal => 0,
            OutputTransform::Rotated90 => 1,
            OutputTransform::Rotated180 => 2,
            OutputTransform::Rotated270 => 3,
            OutputTransform::Flipped => 4,
            OutputTransform::Flipped90 => 5,
            OutputTransform::Flipped180 => 6,
            OutputTransform::Flipped270 => 7,
        }
    }

    /// The number a transform goes by.
    pub fn to_number(self) -> (r: u32)
        ensures
            r == self.number(),
    {
        match self {
            OutputTransform::Normal => 0,
            OutputTransform::Rotated90 => 1,
            OutputTransform::Rotated180 => 2,
            OutputTransform::Rotated270 => 3,
            OutputTransform::Flipped => 4,
            OutputTransform::Flipped90 => 5,
            OutputTransform::Flipped180 => 6,
            OutputTransform::Flipped270 => 7,
        }
    }
}

/// `wl_output.geometry`
pub open spec fn geometry_event(object_id: u32, o: OutputView) -> Message {
    wire::event(
        object_id,
        GEOMETRY,
        Seq::empty() + wire::le_bytes(wire::signed_word(o.x)) + wire::le_bytes(
            wire::signed_word(o.y),
        ) + wire::le_bytes(wire::signed_word(o.width)) + wire::le_bytes(
            wire::signed_word(o.height),
        ) + wire::le_bytes(o.subpixel.number()) + wire::string_bytes(o.make) + wire::string_bytes(
            o.model,
        ) + wire::le_bytes(o.transform.number()),
    )
}

/// Tell one `wl_output` of one mode.
pub open spec fn telling_mode(key: ClientObjectId) -> spec_fn(State, OutputMode) -> State {
    |s: State, m: OutputMode|
        s.sent(
            key.0,
            wire::told4(
                key.1,
                MODE,
                m.flags,
                wire::signed_word(m.width),
                wire::signed_word(m.height),
                wire::signed_word(m.refresh_mhz),
            ),
        )
}

/// Tell one `wl_output` of its modes.
pub open spec fn telling_modes() -> spec_fn(State, ClientObjectId) -> State {
    |s: State, key: ClientObjectId| s.modes_told(key)
}

impl State {
    /// The state once a `wl_output` knows that what it was told belongs
    /// together.
    pub open spec fn output_done(self, key: ClientObjectId) -> Self {
        if self.speaks(key.0, key.1, DONE_SINCE) {
            self.sent(key.0, wire::told0(key.1, DONE))
        } else {
            self
        }
    }

    /// The state once a `wl_output` knows its modes.
    pub open spec fn modes_told(self, key: ClientObjectId) -> Self {
        match self.output(self.output_bindings[key]) {
            Some(o) if self.output_bindings.contains_key(key) => state::each(
                self,
                o.modes,
                telling_mode(key),
            ).output_done(key),
            _ => self,
        }
    }

    /// The state once a `wl_output` knows what it is called.
    pub open spec fn name_told(self, key: ClientObjectId, o: OutputView) -> Self {
        if self.speaks(key.0, key.1, NAME_SINCE) {
            self.sent(
                key.0,
                wire::event(key.1, NAME, Seq::empty() + wire::string_bytes(o.name)),
            ).sent(
                key.0,
                wire::event(key.1, DESCRIPTION, Seq::empty() + wire::string_bytes(o.description)),
            )
        } else {
            self
        }
    }

    /// The state once a `wl_output` knows how finely to draw.
    pub open spec fn scale_told(self, key: ClientObjectId, o: OutputView) -> Self {
        if self.speaks(key.0, key.1, DONE_SINCE) {
            self.sent(key.0, wire::told1(key.1, SCALE, wire::signed_word(o.scale)))
        } else {
            self
        }
    }

    /// The state once a `wl_output` knows everything about its display.
    pub open spec fn output_told(self, key: ClientObjectId, id: OutputId) -> Self {
        match self.output(id) {
            Some(o) => state::each(
                self.sent(key.0, geometry_event(key.1, o)),
                o.modes,
                telling_mode(key),
            ).scale_told(key, o).name_told(key, o).output_done(key),
            None => self,
        }
    }

    /// The state once every `wl_output` knows its modes.
    pub open spec fn modes_broadcast(self) -> Self {
        state::each(self, table::ordered(self.output_bindings.dom()), telling_modes())
    }

    /// The state once a `wl_output` request has been handled.
    pub open spec fn wl_output_handled(self, r: Request) -> Self {
        if r.op == RELEASE {
            State { output_bindings: self.output_bindings.remove(r.key()), ..self }.unregistered(
                r.client,
                r.object,
            )
        } else {
            self.rejected(r, "wl_output"@)
        }
    }
}

pub fn handle(state: &mut CompositorState, msg: &WaylandProtocolMessageWithClientInfo)
    requires
        old(state).wf(),
    ensures
        final(state).wf(),
        final(state)@ == old(state)@.wl_output_handled(msg@),
{
    proof {
        reveal_strlit("wl_output");
    }
    match msg.message.op_code {
        RELEASE => {
            state.output_bindings.remove((msg.client_id, msg.message.object_id));
            state.unregister(msg.client_id, msg.message.object_id);
        },
        _ => unknown_request(state, msg, "wl_output"),
    }
}

/// Tell a `wl_output` of every mode its display has.
fn send_modes(state: &mut CompositorState, key: ClientObjectId, index: usize)
    requires
        old(state).wf(),
        index < old(state).outputs@.len(),
    ensures
        final(state).wf(),
        final(state)@ == state::each(
            old(state)@,
            old(state)@.outputs[index as int].modes,
            telling_mode(key),
        ),
        final(state).outputs@ == old(state).outputs@,
{
    let ghost start = state@;
    let ghost outputs = state.outputs@;
    let ghost modes = start.outputs[index as int].modes;
    assert(modes == outputs[index as int].modes@);
    let mut i: usize = 0;
    proof {
        state::lemma_each_ends(start, modes, telling_mode(key));
    }
    while i < state.outputs[index].modes.len()
        invariant
            state.wf(),
            index < state.outputs@.len(),
            state.outputs@ == outputs,
            modes == outputs[index as int].modes@,
            i <= modes.len(),
            state@ == state::each(start, modes.take(i as int), telling_mode(key)),
        decreases modes.len() - i,
    {
        proof {
            state::lemma_each_step(start, modes, telling_mode(key), i as int);
        }
        let m = state.outputs[index].modes[i];
        send_kept(
            state,
            key.0,
            tell4(key.1, MODE, m.flags, m.width as u32, m.height as u32, m.refresh_mhz as u32),
        );
        i = i + 1;
    }
}

/// Queue a message for a client. What outputs there are stays the same.
fn send_kept(state: &mut CompositorState, client_id: u32, msg: WaylandProtocolMessage)
    requires
        old(state).wf(),
    ensures
        final(state).wf(),
        final(state)@ == old(state)@.sent(client_id, msg@),
        final(state).outputs@ == old(state).outputs@,
{
    if let Some(client) = state.clients.get(client_id) {
        let _ = client.send(msg);
    }
}

/// Tell a `wl_output` that what it was told belongs together.
fn send_done(state: &mut CompositorState, key: ClientObjectId)
    requires
        old(state).wf(),
    ensures
        final(state).wf(),
        final(state)@ == old(state)@.output_done(key),
{
    if state.speaks(key.0, key.1, DONE_SINCE) {
        state.send(key.0, tell0(key.1, DONE));
    }
}

/// Tell a client everything about a display it has just bound.
pub fn send_output_info(
    state: &mut CompositorState,
    client_id: u32,
    object_id: u32,
    output_id: OutputId,
)
    requires
        old(state).wf(),
    ensures
        final(state).wf(),
        final(state)@ == old(state)@.output_told((client_id, object_id), output_id),
{
    let key = (client_id, object_id);
    let index: usize = match find_output(&state.outputs, output_id) {
        Some(index) => index,
        None => {
            return ;
        },
    };
    let ghost outputs = state.outputs@;
    let ghost o = state@.outputs[index as int];
    assert(o == outputs[index as int]@);
    assert(state::output_fits(o));
    let geometry = {
        let g = &state.outputs[index].geometry;
        ArgWriter::new().i32(g.x).i32(g.y).i32(g.physical_width).i32(g.physical_height).u32(
            g.subpixel.to_number(),
        ).string(g.make.as_str()).string(g.model.as_str()).u32(g.transform.to_number()).build()
    };
    send_kept(state, client_id, build_message(object_id, GEOMETRY, geometry));
    send_modes(state, key, index);
    if state.speaks(client_id, object_id, DONE_SINCE) {
        let scale: i32 = state.outputs[index].scale;
        send_kept(state, client_id, tell1(object_id, SCALE, scale as u32));
    }
    if state.speaks(client_id, object_id, NAME_SINCE) {
        let name = ArgWriter::new().string(state.outputs[index].name.as_str()).build();
        let description = ArgWriter::new().string(
            state.outputs[index].description.as_str(),
        ).build();
        send_kept(state, client_id, build_message(object_id, NAME, name));
        send_kept(state, client_id, build_message(object_id, DESCRIPTION, description));
    }
    send_done(state, key);
}

/// Tell every client that has bound a display what modes it now has.
pub fn broadcast_mode(state: &mut CompositorState)
    requires
        old(state).wf(),
    ensures
        final(state).wf(),
        final(state)@ == old(state)@.modes_broadcast(),
{
    let keys = state.output_bindings.keys();
    let ghost start = state@;
    let mut i: usize = 0;
    proof {
        state::lemma_each_ends(start, keys@, telling_modes());
    }
    while i < keys.len()
        invariant
            state.wf(),
            i <= keys@.len(),
            state@ == state::each(start, keys@.take(i as int), telling_modes()),
        decreases keys@.len() - i,
    {
        proof {
            state::lemma_each_step(start, keys@, telling_modes(), i as int);
        }
        let key = keys[i];
        if let Some(id) = state.output_bindings.get(key) {
            if let Some(index) = find_output(&state.outputs, *id) {
                assert(state@.outputs[index as int] == state.outputs@[index as int]@);
                send_modes(state, key, index);
                send_done(state, key);
            }
        }
        i = i + 1;
    }
}

} // verus!

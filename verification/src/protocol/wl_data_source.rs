//! `wl_data_source` protocol handler.
//!
//! A data source is a list of mime types a client says it can produce, offered
//! either as the clipboard or as the content of a drag. It holds no data: what
//! moves the bytes is a pipe the two clients share, and this interface's
//! `send` event is where the compositor hands one end across.

use crate::objects::{DataSource, DataSourceView};
use crate::protocol::wl_data_device_manager::DND_ACTION_ALL;
use crate::protocol::{malformed_request, unknown_request};
use crate::state::{CompositorState, State};
use crate::wire::{
    self, build_message, build_message_with_fds, tell0, tell1, ArgReader, ArgWriter, Fd, Message,
    Request, WaylandProtocolMessageWithClientInfo,
};
use crate::workspace::ClientObjectId;
use vstd::prelude::*;

verus! {

// Request opcodes
pub const OFFER: u16 = 0;

pub const DESTROY: u16 = 1;

pub const SET_ACTIONS: u16 = 2;

// Event opcodes
pub const TARGET: u16 = 0;

pub const SEND: u16 = 1;

pub const CANCELLED: u16 = 2;

pub const DND_DROP_PERFORMED: u16 = 3;

pub const DND_FINISHED: u16 = 4;

pub const ACTION: u16 = 5;

/// `wl_data_source.error.invalid_action_mask`: a mask with bits the protocol
/// does not define.
pub const ERROR_INVALID_ACTION_MASK: u32 = 0;

/// The version at which the drag-and-drop action requests and events appear.
pub const ACTIONS_SINCE: u32 = 3;

impl DataSourceView {
    /// The source with one more mime type it can produce. A duplicate says
    /// nothing new.
    pub open spec fn offering(self, mime_type: Seq<char>) -> Self {
        if self.mime_types.contains(mime_type) {
            self
        } else {
            DataSourceView { mime_types: self.mime_types.push(mime_type), ..self }
        }
    }
}

impl State {
    /// The state once a source has been told what its drag's target will
    /// accept.
    pub open spec fn source_targeted(
        self,
        source: ClientObjectId,
        mime_type: Option<Seq<char>>,
    ) -> Self {
        self.sent(
            source.0,
            wire::event(
                source.1,
                TARGET,
                Seq::empty() + wire::string_or_null_bytes(mime_type),
            ),
        )
    }

    /// The state once a source has been handed the pipe to write to. A pipe
    /// that cannot be handed over is closed.
    pub open spec fn source_asked(
        self,
        source: ClientObjectId,
        mime_type: Seq<char>,
        fd: Fd,
    ) -> Self {
        if self.knows(source.0) {
            self.sent(
                source.0,
                Message {
                    object_id: source.1,
                    op_code: SEND,
                    args: Seq::empty() + wire::string_bytes(mime_type),
                    fds: Seq::empty().push(fd),
                },
            )
        } else {
            self.closed(fd)
        }
    }

    /// The state once a source has been told it is no longer offered.
    pub open spec fn source_cancelled(self, source: ClientObjectId) -> Self {
        self.sent(source.0, wire::told0(source.1, CANCELLED))
    }

    /// The state once a source has been told of a drop.
    pub open spec fn source_dropped(self, source: ClientObjectId) -> Self {
        if self.speaks(source.0, source.1, ACTIONS_SINCE) {
            self.sent(source.0, wire::told0(source.1, DND_DROP_PERFORMED))
        } else {
            self
        }
    }

    /// The state once a source has been told its data has been read.
    pub open spec fn source_finished(self, source: ClientObjectId) -> Self {
        if self.speaks(source.0, source.1, ACTIONS_SINCE) {
            self.sent(source.0, wire::told0(source.1, DND_FINISHED))
        } else {
            self
        }
    }

    /// The state once a source has been told what was settled on.
    pub open spec fn source_action_told(self, source: ClientObjectId, action: u32) -> Self {
        if self.speaks(source.0, source.1, ACTIONS_SINCE) {
            self.sent(source.0, wire::told1(source.1, ACTION, action))
        } else {
            self
        }
    }

    /// The state once a source can produce one more mime type.
    pub open spec fn source_offered(self, r: Request) -> Self {
        match wire::string_at(r.args, 0) {
            Some((mime_type, _)) => if self.data_sources.contains_key(r.key()) {
                State {
                    data_sources: self.data_sources.insert(
                        r.key(),
                        self.data_sources[r.key()].offering(mime_type),
                    ),
                    ..self
                }
            } else {
                self
            },
            None => self.malformed(r, "wl_data_source"@),
        }
    }

    /// The state once a source allows these actions.
    pub open spec fn source_actions_set(self, r: Request) -> Self {
        match r.word(0) {
            Some(actions) => if actions & !DND_ACTION_ALL != 0 {
                self.errored(
                    r.client,
                    r.object,
                    ERROR_INVALID_ACTION_MASK,
                    "wl_data_source.set_actions: mask has actions the protocol does not define"@,
                )
            } else {
                let s = if self.data_sources.contains_key(r.key()) {
                    State {
                        data_sources: self.data_sources.insert(
                            r.key(),
                            DataSourceView { actions, ..self.data_sources[r.key()] },
                        ),
                        ..self
                    }
                } else {
                    self
                };
                s.drag_actions_resolved()
            },
            None => self.malformed(r, "wl_data_source"@),
        }
    }

    /// The state once a `wl_data_source` request has been handled.
    pub open spec fn wl_data_source_handled(self, r: Request) -> Self {
        if r.op == OFFER {
            self.source_offered(r)
        } else if r.op == DESTROY {
            self.source_retired(r.key(), false).unregistered(r.client, r.object)
        } else if r.op == SET_ACTIONS {
            self.source_actions_set(r)
        } else {
            self.rejected(r, "wl_data_source"@)
        }
    }
}

pub fn handle(state: &mut CompositorState, msg: &WaylandProtocolMessageWithClientInfo)
    requires
        old(state).wf(),
        msg@.fits(),
    ensures
        final(state).wf(),
        final(state)@ == old(state)@.wl_data_source_handled(msg@),
{
    proof {
        reveal_strlit("wl_data_source");
    }
    match msg.message.op_code {
        OFFER => handle_offer(state, msg),
        DESTROY => {
            // No `cancelled` - the client is destroying the source itself and
            // does not need telling that it is gone.
            state.retire_data_source((msg.client_id, msg.message.object_id), false);
            state.unregister(msg.client_id, msg.message.object_id);
        },
        SET_ACTIONS => handle_set_actions(state, msg),
        _ => unknown_request(state, msg, "wl_data_source"),
    }
}

/// Whether a source can already produce a mime type.
pub fn produces(source: &DataSource, mime_type: &String) -> (r: bool)
    ensures
        r == source@.mime_types.contains(mime_type@),
{
    let mut i: usize = 0;
    while i < source.mime_types.len()
        invariant
            i <= source.mime_types@.len(),
            forall|j: int| 0 <= j < i ==> #[trigger] source@.mime_types[j] != mime_type@,
        decreases source.mime_types@.len() - i,
    {
        assert(source@.mime_types[i as int] == source.mime_types@[i as int]@);
        if source.mime_types[i].eq(mime_type) {
            return true;
        }
        i = i + 1;
    }
    false
}

fn handle_offer(state: &mut CompositorState, msg: &WaylandProtocolMessageWithClientInfo)
    requires
        old(state).wf(),
        msg@.fits(),
    ensures
        final(state).wf(),
        final(state)@ == old(state)@.source_offered(msg@),
{
    proof {
        reveal_strlit("wl_data_source");
    }
    let mut args = ArgReader::new(msg.message.args.as_slice());
    let mime_type = match args.string() {
        Some(mime_type) => mime_type,
        None => {
            malformed_request(state, msg, "wl_data_source");
            return ;
        },
    };
    let key = (msg.client_id, msg.message.object_id);
    if let Some(source) = state.data_sources.get_mut(key) {
        // A duplicate is ignored rather than refused. It says nothing new, and
        // the only way to refuse it would disconnect a client over a repetition
        // that changes nothing.
        let ghost before = source@;
        if !produces(source, &mime_type) {
            source.mime_types.push(mime_type);
            assert(source@.mime_types =~= before.mime_types.push(mime_type@));
        }
    }
}

fn handle_set_actions(state: &mut CompositorState, msg: &WaylandProtocolMessageWithClientInfo)
    requires
        old(state).wf(),
    ensures
        final(state).wf(),
        final(state)@ == old(state)@.source_actions_set(msg@),
{
    proof {
        reveal_strlit("wl_data_source");
        reveal_strlit("wl_data_source.set_actions: mask has actions the protocol does not define");
    }
    let mut args = ArgReader::new(msg.message.args.as_slice());
    let actions: u32 = match args.u32() {
        Some(actions) => actions,
        None => {
            malformed_request(state, msg, "wl_data_source");
            return ;
        },
    };
    if actions & !DND_ACTION_ALL != 0 {
        state.fail(
            msg.client_id,
            msg.message.object_id,
            ERROR_INVALID_ACTION_MASK,
            "wl_data_source.set_actions: mask has actions the protocol does not define",
        );
        return ;
    }
    if let Some(source) = state.data_sources.get_mut((msg.client_id, msg.message.object_id)) {
        source.actions = actions;
    }
    // The protocol also has this callable only once, and only on a drag source.
    // Neither is enforced: both are rules about how the object was used
    // earlier, the only way to refuse is fatal, and a false positive kills an
    // application over something the user cannot see. A mask with undefined
    // bits is different in kind - that is the client and the compositor
    // disagreeing about the interface itself.
    state.resolve_drag_actions();
}

/// Send `wl_data_source.target`, naming what the drag target will accept.
///
/// A null mime type says it will take nothing, which is how a source knows to
/// draw a "no drop" cursor. It is a genuinely null string rather than an empty
/// one - see [`ArgWriter::string_or_null`].
pub fn send_target(state: &mut CompositorState, source: ClientObjectId, mime_type: Option<&str>)
    requires
        old(state).wf(),
        mime_type matches Some(m) ==> wire::writable(m@),
    ensures
        final(state).wf(),
        final(state)@ == old(state)@.source_targeted(
            source,
            match mime_type {
                Some(m) => Some(m@),
                None => None,
            },
        ),
{
    let args = ArgWriter::new().string_or_null(mime_type).build();
    state.send(source.0, build_message(source.1, TARGET, args));
}

/// Hand the source client the descriptor a receiver is waiting to read from.
///
/// This is the whole of the transfer. The descriptor came from the receiving
/// client on `wl_data_offer.receive` and is passed across untouched; the two
/// clients then talk directly through the pipe and the compositor reads
/// nothing. If this send fails our copy is closed, which the reader sees as an
/// end of file rather than a hang.
pub fn send_send(state: &mut CompositorState, source: ClientObjectId, mime_type: &str, fd: Fd)
    requires
        old(state).wf(),
        wire::writable(mime_type@),
    ensures
        final(state).wf(),
        final(state)@ == old(state)@.source_asked(source, mime_type@, fd),
{
    let args = ArgWriter::new().string(mime_type).build();
    let mut fds: Vec<Fd> = Vec::new();
    fds.push(fd);
    match state.clients.get(source.0) {
        Some(client) => {
            let _ = client.send(build_message_with_fds(source.1, SEND, args, fds));
        },
        None => state.close(fd),
    }
}

/// Send `wl_data_source.cancelled`: the source is no longer being offered.
///
/// Sent when a selection is replaced, when a drag ends without a drop, and when
/// the compositor can no longer make good on the source for any other reason.
pub fn send_cancelled(state: &mut CompositorState, source: ClientObjectId)
    requires
        old(state).wf(),
    ensures
        final(state).wf(),
        final(state)@ == old(state)@.source_cancelled(source),
{
    state.send(source.0, tell0(source.1, CANCELLED));
}

/// Send `wl_data_source.dnd_drop_performed`: the user let go over a target that
/// accepted. The source may stop drawing the drag, but must not yet destroy
/// itself - the target has still to read the data.
pub fn send_dnd_drop_performed(state: &mut CompositorState, source: ClientObjectId)
    requires
        old(state).wf(),
    ensures
        final(state).wf(),
        final(state)@ == old(state)@.source_dropped(source),
{
    if state.speaks(source.0, source.1, ACTIONS_SINCE) {
        state.send(source.0, tell0(source.1, DND_DROP_PERFORMED));
    }
}

/// Send `wl_data_source.dnd_finished`: the target has finished with the data.
///
/// Only a version 3 target sends the `finish` that triggers this, so an older
/// one leaves the source never hearing it. That is what the protocol gives it.
pub fn send_dnd_finished(state: &mut CompositorState, source: ClientObjectId)
    requires
        old(state).wf(),
    ensures
        final(state).wf(),
        final(state)@ == old(state)@.source_finished(source),
{
    if state.speaks(source.0, source.1, ACTIONS_SINCE) {
        state.send(source.0, tell0(source.1, DND_FINISHED));
    }
}

/// Send `wl_data_source.action`: the action the two sides have settled on.
pub fn send_action(state: &mut CompositorState, source: ClientObjectId, action: u32)
    requires
        old(state).wf(),
    ensures
        final(state).wf(),
        final(state)@ == old(state)@.source_action_told(source, action),
{
    if state.speaks(source.0, source.1, ACTIONS_SINCE) {
        state.send(source.0, tell1(source.1, ACTION, action));
    }
}

} // verus!

//! The compositor's side of everything that happens: what comes of each message
//! from a client's socket, of each from the backend, and of time passing.
//!
//! None of it waits. Whoever drives the compositor hands messages in, takes
//! what is to be written and done out, and lets the pacer publish after every
//! pass.

use crate::client::{self, ClientView};
use crate::dmabuf::{formats_view, DmabufFormat, DmabufFormatView, DmabufProbe};
use crate::focus::switch_focus;
use crate::frames::{
    self, drop_output, fire_frame_callbacks, finish_buffer_releases, has_output,
    start_buffer_releases, update_surface_outputs, FrameTarget,
};
use crate::keys::{key_input, Modifiers};
use crate::objects::{SeatState, SurfaceView};
use crate::pacer::{scenes_view, FramePacer, PacerView};
use crate::pointer::{
    deliver_pointer_motion, deliver_scroll, deliver_scroll_end, mouse_button, Scroll,
};
use crate::protocol::wl_registry::WL_OUTPUT_VERSION;
use crate::protocol::{
    handle_message, wl_output, wl_registry, wl_seat, zwp_linux_buffer_params,
    zwp_linux_dmabuf, Outside,
};
use crate::seqs;
use crate::shared::{
    self, ButtonState, KeyState, MouseButton, Output, OutputGeometry, OutputId, OutputMode,
    OutputView, PresentedAt, Scene,
};
use crate::state::{self, CompositorState, State};
use crate::table;
use crate::touch::{touch_cancel, touch_down, touch_motion, touch_up};
use crate::tree;
use crate::windows::{self, find_output};
use crate::wire::{Fd, Message, WaylandProtocolMessageWithClientInfo};
use crate::workspace::ClientObjectId;
use vstd::prelude::*;

verus! {

/// The global number behind another. There is none behind the last.
pub open spec fn number_after(n: u32) -> u32 {
    if n == u32::MAX {
        n
    } else {
        (n + 1) as u32
    }
}

/// An output as it is reported anew. What it is called does not change.
pub open spec fn reported(old: OutputView, new: OutputView) -> OutputView {
    OutputView { id: old.id, name: old.name, ..new }
}

/// An output with another resolution.
pub open spec fn resized(o: OutputView, width: i32, height: i32) -> OutputView {
    OutputView {
        width,
        height,
        modes: o.modes.map_values(|m: OutputMode| OutputMode { width, height, ..m }),
        ..o
    }
}

/// An output not among some.
pub open spec fn missing_from(outputs: Seq<OutputView>) -> spec_fn(OutputId) -> bool {
    |id: OutputId| seqs::first(outputs, windows::named(id)) is None
}

/// An output other than one.
pub open spec fn not_named(id: OutputId) -> spec_fn(OutputView) -> bool {
    |o: OutputView| o.id != id
}

/// Take in what is reported of one output.
pub open spec fn listing() -> spec_fn(State, OutputView) -> State {
    |s: State, o: OutputView| s.output_listed(o)
}

/// Take out one output that has gone.
pub open spec fn unplugging() -> spec_fn(State, OutputId) -> State {
    |s: State, id: OutputId| s.output_unplugged(id)
}

/// Have one surface be on an output no more.
pub open spec fn taking_off(id: OutputId) -> spec_fn(State, ClientObjectId) -> State {
    |s: State, key: ClientObjectId| s.surface_taken_off(key, id)
}

/// The descriptors some messages carry.
pub open spec fn carried(messages: Seq<Message>) -> Seq<Fd>
    decreases messages.len(),
{
    if messages.len() == 0 {
        Seq::empty()
    } else {
        carried(messages.drop_last()) + messages.last().fds
    }
}

/// The descriptors a client leaves behind: those it sent and no request
/// claimed, those that went down with messages, and those of messages not yet
/// written.
pub open spec fn left_behind(c: ClientView) -> Seq<Fd> {
    c.fd_queue + c.closing + carried(c.outbox)
}

impl State {
    /// The state once a client has sent descriptors. Those of one that is not
    /// there are closed.
    pub open spec fn fds_received(self, client_id: u32, fds: Seq<Fd>) -> Self {
        if self.knows(client_id) {
            let c = self.clients[client_id];
            self.with_client(client_id, ClientView { fd_queue: c.fd_queue + fds, ..c })
        } else {
            self.all_closed(fds)
        }
    }

    /// The state once a client is gone, and nothing it had is left.
    pub open spec fn client_dropped(self, client_id: u32) -> Self {
        let s = self.client_forgotten(client_id);
        if s.knows(client_id) {
            State { clients: s.clients.remove(client_id), ..s }.all_closed(
                left_behind(s.clients[client_id]),
            )
        } else {
            s
        }
    }

    /// The state once a client has disconnected. If it had the focus, the
    /// window that is now on top gets it.
    pub open spec fn disconnected(self, client_id: u32) -> Self {
        let was_focused = self.focused_surface matches Some(f) && f.0 == client_id;
        let s = self.client_dropped(client_id).dirtied();
        match s.top_visible() {
            Some(top) if was_focused => s.focus_switched(top),
            _ => s,
        }
    }

    /// The state once it is known what the seat can do.
    pub open spec fn seat_changed(self, seat: SeatState) -> Self {
        let s = State { seat, ..self };
        if seat == self.seat {
            s
        } else {
            s.capabilities_broadcast()
        }
    }

    /// The state with an output replaced.
    pub open spec fn output_updated(self, i: int, o: OutputView) -> Self {
        State { outputs: self.outputs.update(i, o), ..self }
    }

    /// The state with one more output, and everyone told of it.
    pub open spec fn output_added(self, o: OutputView) -> Self {
        let name = self.next_global_number;
        State {
            next_global_number: number_after(name),
            output_global_names: self.output_global_names.insert(o.id, name),
            outputs: self.outputs.push(o),
            ..self
        }.global_broadcast(name, "wl_output"@, WL_OUTPUT_VERSION)
    }

    /// The state once what is reported of an output has been taken in.
    pub open spec fn output_listed(self, o: OutputView) -> Self {
        match seqs::first(self.outputs, windows::named(o.id)) {
            Some(i) => self.output_updated(i, reported(self.outputs[i], o)),
            None => self.output_added(o),
        }
    }

    /// The state once a surface is on an output no more.
    pub open spec fn surface_taken_off(self, key: ClientObjectId, id: OutputId) -> Self {
        if self.surfaces.contains_key(key) {
            let surface = self.surfaces[key];
            State {
                surfaces: self.surfaces.insert(
                    key,
                    SurfaceView {
                        entered_outputs: surface.entered_outputs.filter(frames::other_output(id)),
                        visible_on: surface.visible_on.filter(frames::other_output(id)),
                        ..surface
                    },
                ),
                ..self
            }
        } else {
            self
        }
    }

    /// The state once an output is gone, and nothing is on it.
    pub open spec fn output_removed(self, id: OutputId) -> Self {
        let s = State {
            outputs: self.outputs.filter(not_named(id)),
            output_global_names: self.output_global_names.remove(id),
            bells: self.bells.remove(id),
            ..self
        };
        state::each(s, table::ordered(s.surfaces.dom()), taking_off(id))
    }

    /// The state once an output is gone, and everyone told so.
    pub open spec fn output_unplugged(self, id: OutputId) -> Self {
        let s = self.output_removed(id);
        if self.output_global_names.contains_key(id) {
            s.global_withdrawn(self.output_global_names[id])
        } else {
            s
        }
    }

    /// The state once the outputs there are have been reported, all of them.
    pub open spec fn outputs_listed(self, outputs: Seq<OutputView>) -> Self {
        let s = state::each(self, outputs, listing());
        state::each(
            s,
            windows::output_ids(s.outputs).filter(missing_from(outputs)),
            unplugging(),
        ).workspaces_synced()
    }

    /// The state once it is known which dma-bufs the backend can import. The
    /// first time there are any, everyone is told.
    pub open spec fn formats_known(self, formats: Seq<DmabufFormatView>) -> Self {
        let s = State { dmabuf_formats: formats, ..self };
        if formats.len() > 0 && self.dmabuf_global_name is None {
            let name = self.next_global_number;
            State {
                next_global_number: number_after(name),
                dmabuf_global_name: Some(name),
                ..s
            }.global_broadcast(name, "zwp_linux_dmabuf_v1"@, zwp_linux_dmabuf::VERSION)
        } else {
            s
        }
    }

    /// The state once an output has another resolution.
    pub open spec fn output_resized(self, id: OutputId, width: i32, height: i32) -> Self {
        let s = match seqs::first(self.outputs, windows::named(id)) {
            Some(i) => self.output_updated(i, resized(self.outputs[i], width, height)),
            None => self,
        };
        s.modes_broadcast().dirtied()
    }

    /// The state once what no display paces has been done.
    pub open spec fn housekept(self, timestamp_ms: u32) -> Self {
        let (s, moved) = self.surface_outputs_updated().confined();
        let s = if moved {
            s.dirtied()
        } else {
            s
        };
        s.bells_expired().frames_fired(
            timestamp_ms,
            FrameTarget::Offscreen,
            None,
        ).releases_started().releases_finished()
    }
}

/// Take in descriptors a client has sent.
pub fn receive_fds(state: &mut CompositorState, client_id: u32, fds: Vec<Fd>)
    requires
        old(state).wf(),
    ensures
        final(state).wf(),
        final(state)@ == old(state)@.fds_received(client_id, fds@),
{
    let mut fds = fds;
    match state.clients.get(client_id) {
        Some(client) => client.fd_queue.append(&mut fds),
        None => {
            state.close_all(&fds);
        },
    }
}

/// The descriptors a client leaves behind.
fn fds_left(state: &mut CompositorState, client_id: u32) -> (r: Option<Vec<Fd>>)
    requires
        old(state).wf(),
    ensures
        final(state).wf(),
        r is Some == old(state)@.knows(client_id),
        r matches Some(fds) ==> fds@ == left_behind(old(state)@.clients[client_id]),
        final(state)@ == if old(state)@.knows(client_id) {
            old(state)@.with_client(client_id, final(state)@.clients[client_id])
        } else {
            old(state)@
        },
{
    match state.clients.get(client_id) {
        Some(client) => {
            let ghost was = client@;
            let mut fds: Vec<Fd> = Vec::new();
            fds.append(&mut client.fd_queue);
            let mut closing = client.take_closing();
            fds.append(&mut closing);
            let outbox = client.take_outbox();
            let ghost messages = client::messages(outbox@);
            let ghost before = fds@;
            let mut i: usize = 0;
            assert(messages.take(0) =~= Seq::empty());
            assert(fds@ =~= before + carried(messages.take(0)));
            while i < outbox.len()
                invariant
                    i <= outbox@.len(),
                    messages == client::messages(outbox@),
                    fds@ == before + carried(messages.take(i as int)),
                decreases outbox@.len() - i,
            {
                assert(messages.take(i as int + 1).drop_last() =~= messages.take(i as int));
                assert(messages[i as int] == outbox@[i as int]@);
                let mut j: usize = 0;
                let carried_fds = &outbox[i].fds;
                let ghost so_far = fds@;
                assert(so_far + carried_fds@.take(0) =~= so_far);
                while j < carried_fds.len()
                    invariant
                        j <= carried_fds@.len(),
                        fds@ == so_far + carried_fds@.take(j as int),
                    decreases carried_fds@.len() - j,
                {
                    fds.push(carried_fds[j]);
                    assert(fds@ =~= so_far + carried_fds@.take(j as int + 1));
                    j = j + 1;
                }
                assert(carried_fds@.take(j as int) =~= carried_fds@);
                assert(fds@ =~= before + carried(messages.take(i as int + 1)));
                i = i + 1;
            }
            assert(messages.take(i as int) =~= messages);
            assert(fds@ =~= left_behind(was));
            Some(fds)
        },
        None => None,
    }
}

/// A client has disconnected.
pub fn client_disconnected(state: &mut CompositorState, client_id: u32)
    requires
        old(state).wf(),
    ensures
        final(state).wf(),
        final(state)@ == old(state)@.disconnected(client_id),
{
    let was_focused = match state.focused_surface {
        Some(focused) => focused.0 == client_id,
        None => false,
    };
    drop_client(state, client_id);
    state.dirty = true;
    // Focus the next surface down the stack
    if was_focused {
        if let Some(top) = state.top_visible_toplevel() {
            switch_focus(state, top);
        }
    }
}

/// Forget a client and everything it had.
fn drop_client(state: &mut CompositorState, client_id: u32)
    requires
        old(state).wf(),
    ensures
        final(state).wf(),
        final(state)@ == old(state)@.client_dropped(client_id),
{
    state.remove_client_resources(client_id);
    let ghost forgotten = state@;
    if let Some(fds) = fds_left(state, client_id) {
        state.clients.remove(client_id);
        assert(state@.clients =~= forgotten.clients.remove(client_id));
        state.close_all(&fds);
    }
}

/// The backend has said what the seat can do.
///
/// A capability can appear after clients have bound the seat - a touchscreen is
/// only known to exist once it is touched - so everyone already connected is
/// told again rather than only whoever binds next.
pub fn set_seat_capabilities(state: &mut CompositorState, seat: SeatState)
    requires
        old(state).wf(),
    ensures
        final(state).wf(),
        final(state)@ == old(state)@.seat_changed(seat),
{
    let changed = state.seat != seat;
    state.seat = seat;
    if changed {
        wl_seat::broadcast_capabilities(state);
    }
}

/// Take a global number.
fn take_global_number(state: &mut CompositorState) -> (r: u32)
    requires
        old(state).wf(),
    ensures
        final(state).wf(),
        r == old(state)@.next_global_number,
        final(state)@ == (State {
            next_global_number: number_after(old(state)@.next_global_number),
            ..old(state)@
        }),
{
    let name: u32 = state.next_global_number;
    state.next_global_number = if name == u32::MAX { name } else { name + 1 };
    name
}

/// Take in what is reported of an output: it is new, or it has changed.
fn list_output(state: &mut CompositorState, output: Output)
    requires
        old(state).wf(),
        state::output_fits(output@),
    ensures
        final(state).wf(),
        final(state)@ == old(state)@.output_listed(output@),
{
    match find_output(&state.outputs, output.id) {
        Some(i) => {
            // Update existing output (preserve global name mapping)
            let known = state.outputs.remove(i);
            let updated = Output {
                id: known.id,
                name: known.name,
                description: output.description,
                geometry: output.geometry,
                modes: output.modes,
                scale: output.scale,
            };
            state.outputs.insert(i, updated);
            assert(old(state)@.outputs[i as int] == old(state).outputs@[i as int]@);
            assert(state@.outputs =~= old(state)@.outputs.update(
                i as int,
                reported(old(state)@.outputs[i as int], output@),
            ));
        },
        None => add_output(state, output),
    }
}

/// Add an output: give it a global name and advertise it.
fn add_output(state: &mut CompositorState, output: Output)
    requires
        old(state).wf(),
        state::output_fits(output@),
    ensures
        final(state).wf(),
        final(state)@ == old(state)@.output_added(output@),
{
    proof {
        reveal_strlit("wl_output");
    }
    let name: u32 = take_global_number(state);
    state.output_global_names.insert(output.id, name);
    state.outputs.push(output);
    assert(state@.outputs =~= old(state)@.outputs.push(output@));
    wl_registry::broadcast_global(state, name, "wl_output", WL_OUTPUT_VERSION);
}

/// Have a surface be on an output no more.
fn take_surface_off(state: &mut CompositorState, key: ClientObjectId, output_id: OutputId)
    requires
        old(state).wf(),
    ensures
        final(state).wf(),
        final(state)@ == old(state)@.surface_taken_off(key, output_id),
{
    if let Some(surface) = state.surfaces.get_mut(key) {
        drop_output(&mut surface.entered_outputs, output_id);
        drop_output(&mut surface.visible_on, output_id);
    }
    assert(tree::surface_links(state@.surfaces) =~= tree::surface_links(old(state)@.surfaces));
}

/// Keep every output but one.
fn retain_outputs(state: &mut CompositorState, output_id: OutputId)
    requires
        old(state).wf(),
    ensures
        final(state).wf(),
        final(state)@ == (State {
            outputs: old(state)@.outputs.filter(not_named(output_id)),
            ..old(state)@
        }),
{
    let ghost all = state@.outputs;
    let ghost p = not_named(output_id);
    let mut rest: Vec<Output> = Vec::new();
    std::mem::swap(&mut rest, &mut state.outputs);
    let ghost total = rest@.len() as int;
    assert(shared::outputs_view(rest@) =~= all);
    let mut kept: Vec<Output> = Vec::new();
    let ghost mut n: int = 0;
    proof {
        reveal(Seq::filter);
        assert(all.take(0) =~= Seq::empty());
        assert(all.skip(0) =~= all);
        assert(shared::outputs_view(kept@) =~= all.take(0).filter(p));
    }
    while rest.len() > 0
        invariant
            0 <= n <= all.len(),
            p == not_named(output_id),
            shared::outputs_view(rest@) == all.skip(n),
            shared::outputs_view(kept@) == all.take(n).filter(p),
        decreases rest@.len(),
    {
        proof {
            assert(shared::outputs_view(rest@).len() == all.len() - n);
            assert(shared::outputs_view(rest@)[0] == rest@[0]@);
            assert(all.skip(n)[0] == all[n]);
            seqs::lemma_filter_step(all, p, n);
        }
        let ghost before = rest@;
        let ghost shown = shared::outputs_view(kept@);
        let output = rest.remove(0);
        assert(shared::outputs_view(rest@) =~= all.skip(n + 1)) by {
            assert forall|j: int| 0 <= j < rest@.len() implies shared::outputs_view(rest@)[j]
                == all.skip(n + 1)[j] by {
                assert(shared::outputs_view(before)[j + 1] == before[j + 1]@);
            }
            assert(shared::outputs_view(before).len() == before.len());
        }
        if output.id != output_id {
            kept.push(output);
            assert(shared::outputs_view(kept@) =~= shown.push(output@));
        }
        proof {
            n = n + 1;
        }
    }
    proof {
        assert(shared::outputs_view(rest@).len() == 0);
        assert(all.take(n) =~= all);
        seqs::lemma_filter_passes(all, p);
        assert forall|i: int| 0 <= i < all.filter(p).len() implies state::output_fits(
            #[trigger] all.filter(p)[i],
        ) by {
            assert(all.filter(p).contains(all.filter(p)[i]));
            seqs::lemma_filter_contains(all, p, all.filter(p)[i]);
            let j = choose|j: int| 0 <= j < all.len() && all[j] == all.filter(p)[i];
            assert(state::output_fits(all[j]));
        }
    }
    state.outputs = kept;
    assert(state@.outputs == all.filter(p));
}

impl CompositorState {
    /// Take an output out, with everything that is on it. Gives the name it was
    /// advertised under, for the global to be withdrawn.
    pub fn remove_output(&mut self, output_id: OutputId) -> (r: Option<u32>)
        requires
            old(self).wf(),
        ensures
            final(self).wf(),
            final(self)@ == old(self)@.output_removed(output_id),
            r == if old(self)@.output_global_names.contains_key(output_id) {
                Some(old(self)@.output_global_names[output_id])
            } else {
                None
            },
    {
        retain_outputs(self, output_id);
        let name: Option<u32> = self.output_global_names.remove(output_id);
        self.bells.remove(output_id);
        let keys = self.surfaces.keys();
        let ghost start = self@;
        let ghost f = taking_off(output_id);
        assert(start.output_global_names =~= old(self)@.output_global_names.remove(output_id));
        assert(start.bells =~= old(self)@.bells.remove(output_id));
        let mut i: usize = 0;
        proof {
            state::lemma_each_ends(start, keys@, f);
        }
        while i < keys.len()
            invariant
                self.wf(),
                i <= keys@.len(),
                f == taking_off(output_id),
                self@ == state::each(start, keys@.take(i as int), f),
            decreases keys@.len() - i,
        {
            proof {
                state::lemma_each_step(start, keys@, f, i as int);
            }
            take_surface_off(self, keys[i], output_id);
            i = i + 1;
        }
        proof {
            state::lemma_each_ends(start, keys@, f);
        }
        name
    }
}

/// Take out an output that has gone, and tell everyone.
///
/// Withdrawing the global is the half that matters to clients: one that is
/// announced and never withdrawn leaves them holding a name for a display that
/// no longer exists.
fn unplug_output(state: &mut CompositorState, output_id: OutputId)
    requires
        old(state).wf(),
    ensures
        final(state).wf(),
        final(state)@ == old(state)@.output_unplugged(output_id),
{
    if let Some(name) = state.remove_output(output_id) {
        wl_registry::broadcast_global_remove(state, name);
    }
}

/// The ids of some outputs.
fn ids_of_outputs(outputs: &Vec<Output>) -> (r: Vec<OutputId>)
    ensures
        r@ == windows::output_ids(shared::outputs_view(outputs@)),
{
    let mut r: Vec<OutputId> = Vec::new();
    let ghost all = windows::output_ids(shared::outputs_view(outputs@));
    let mut i: usize = 0;
    while i < outputs.len()
        invariant
            i <= outputs@.len(),
            all == windows::output_ids(shared::outputs_view(outputs@)),
            r@.len() == i,
            forall|j: int| 0 <= j < i ==> r@[j] == #[trigger] all[j],
        decreases outputs@.len() - i,
    {
        assert(shared::outputs_view(outputs@)[i as int] == outputs@[i as int]@);
        r.push(outputs[i].id);
        i = i + 1;
    }
    assert(r@ =~= all);
    r
}

/// Whether an output is among those reported.
proof fn lemma_reported(outputs: Seq<OutputView>, id: OutputId)
    ensures
        windows::output_ids(outputs).contains(id) == !missing_from(outputs)(id),
{
    let ids = windows::output_ids(outputs);
    if ids.contains(id) {
        let i = choose|i: int| 0 <= i < ids.len() && ids[i] == id;
        assert(outputs[i].id == id);
        if missing_from(outputs)(id) {
            seqs::lemma_first_holds(outputs, windows::named(id));
            assert(windows::named(id)(outputs[i]));
        }
    } else {
        assert forall|i: int| 0 <= i < outputs.len() implies !windows::named(id)(
            #[trigger] outputs[i],
        ) by {
            assert(ids[i] == outputs[i].id);
            assert(ids.contains(ids[i]));
        }
        seqs::lemma_first_none(outputs, windows::named(id));
    }
}

/// The outputs that are no longer reported.
fn unreported(state: &CompositorState, seen: &Vec<OutputId>, outputs: Ghost<Seq<OutputView>>) -> (r:
    Vec<OutputId>)
    requires
        seen@ == windows::output_ids(outputs@),
    ensures
        r@ == windows::output_ids(state@.outputs).filter(missing_from(outputs@)),
{
    let ids = ids_of_outputs(&state.outputs);
    let ghost p = missing_from(outputs@);
    let mut r: Vec<OutputId> = Vec::new();
    let mut i: usize = 0;
    proof {
        reveal(Seq::filter);
        assert(ids@.take(0) =~= Seq::empty());
    }
    while i < ids.len()
        invariant
            i <= ids@.len(),
            p == missing_from(outputs@),
            seen@ == windows::output_ids(outputs@),
            r@ == ids@.take(i as int).filter(p),
        decreases ids@.len() - i,
    {
        proof {
            seqs::lemma_filter_step(ids@, p, i as int);
            lemma_reported(outputs@, ids@[i as int]);
        }
        if !has_output(seen, ids[i]) {
            r.push(ids[i]);
        }
        i = i + 1;
    }
    assert(ids@.take(i as int) =~= ids@);
    r
}

/// The backend has said which outputs there are: all of them, so that one it
/// does not mention has gone.
pub fn set_outputs(state: &mut CompositorState, outputs: Vec<Output>)
    requires
        old(state).wf(),
        forall|i: int| 0 <= i < outputs@.len() ==> state::output_fits((#[trigger] outputs@[i])@),
    ensures
        final(state).wf(),
        final(state)@ == old(state)@.outputs_listed(shared::outputs_view(outputs@)),
{
    let ghost all = shared::outputs_view(outputs@);
    let seen = ids_of_outputs(&outputs);
    list_outputs(state, outputs);
    let gone = unreported(state, &seen, Ghost(all));
    let ghost start = state@;
    let mut i: usize = 0;
    proof {
        state::lemma_each_ends(start, gone@, unplugging());
    }
    while i < gone.len()
        invariant
            state.wf(),
            i <= gone@.len(),
            state@ == state::each(start, gone@.take(i as int), unplugging()),
        decreases gone@.len() - i,
    {
        proof {
            state::lemma_each_step(start, gone@, unplugging(), i as int);
        }
        unplug_output(state, gone[i]);
        i = i + 1;
    }
    proof {
        state::lemma_each_ends(start, gone@, unplugging());
    }
    // A new output arrives with no workspace, and a window opening before it
    // has one would have nowhere to go.
    state.sync_workspaces();
}

/// Take in what is reported of some outputs.
fn list_outputs(state: &mut CompositorState, outputs: Vec<Output>)
    requires
        old(state).wf(),
        forall|i: int| 0 <= i < outputs@.len() ==> state::output_fits((#[trigger] outputs@[i])@),
    ensures
        final(state).wf(),
        final(state)@ == state::each(old(state)@, shared::outputs_view(outputs@), listing()),
{
    let mut rest = outputs;
    let ghost all = shared::outputs_view(rest@);
    let ghost start = state@;
    let ghost mut n: int = 0;
    proof {
        state::lemma_each_ends(start, all, listing());
        assert(all.skip(0) =~= all);
    }
    while rest.len() > 0
        invariant
            state.wf(),
            0 <= n <= all.len(),
            shared::outputs_view(rest@) == all.skip(n),
            forall|i: int| 0 <= i < rest@.len() ==> state::output_fits((#[trigger] rest@[i])@),
            state@ == state::each(start, all.take(n), listing()),
        decreases rest@.len(),
    {
        proof {
            assert(shared::outputs_view(rest@).len() == all.len() - n);
            assert(shared::outputs_view(rest@)[0] == rest@[0]@);
            assert(all.skip(n)[0] == all[n]);
            state::lemma_each_step(start, all, listing(), n);
        }
        let ghost before = rest@;
        let output = rest.remove(0);
        assert(shared::outputs_view(rest@) =~= all.skip(n + 1)) by {
            assert forall|j: int| 0 <= j < rest@.len() implies shared::outputs_view(rest@)[j]
                == all.skip(n + 1)[j] by {
                assert(shared::outputs_view(before)[j + 1] == before[j + 1]@);
            }
            assert(shared::outputs_view(before).len() == before.len());
        }
        list_output(state, output);
        proof {
            n = n + 1;
        }
    }
    proof {
        assert(shared::outputs_view(rest@).len() == 0);
        state::lemma_each_ends(start, all, listing());
    }
}

/// The backend has said which dma-bufs it can import.
///
/// Kept for the protocol layer to advertise from. No format at all means no
/// `zwp_linux_dmabuf_v1` global, which is the honest answer when nothing can be
/// imported. The global appears the moment there is something behind it, which
/// may be after clients have connected - hence the broadcast as well as the
/// listing every later client gets. A second answer does not advertise the same
/// interface twice.
pub fn set_dmabuf_formats(state: &mut CompositorState, formats: Vec<DmabufFormat>)
    requires
        old(state).wf(),
    ensures
        final(state).wf(),
        final(state)@ == old(state)@.formats_known(formats_view(formats@)),
{
    proof {
        reveal_strlit("zwp_linux_dmabuf_v1");
    }
    let any = formats.len() > 0;
    state.dmabuf_formats = formats;
    if any && state.dmabuf_global_name.is_none() {
        let name: u32 = take_global_number(state);
        state.dmabuf_global_name = Some(name);
        wl_registry::broadcast_global(
            state,
            name,
            "zwp_linux_dmabuf_v1",
            zwp_linux_dmabuf::VERSION,
        );
    }
}

/// The modes of an output with another resolution.
fn resize_modes(modes: &Vec<OutputMode>, width: i32, height: i32) -> (r: Vec<OutputMode>)
    ensures
        r@ == modes@.map_values(|m: OutputMode| OutputMode { width, height, ..m }),
{
    let mut r: Vec<OutputMode> = Vec::new();
    let ghost all = modes@.map_values(|m: OutputMode| OutputMode { width, height, ..m });
    let mut i: usize = 0;
    while i < modes.len()
        invariant
            i <= modes@.len(),
            all == modes@.map_values(|m: OutputMode| OutputMode { width, height, ..m }),
            r@.len() == i,
            forall|j: int| 0 <= j < i ==> r@[j] == #[trigger] all[j],
        decreases modes@.len() - i,
    {
        let m = modes[i];
        r.push(OutputMode { flags: m.flags, width, height, refresh_mhz: m.refresh_mhz });
        i = i + 1;
    }
    assert(r@ =~= all);
    r
}

/// An output has another resolution.
pub fn resize_output(state: &mut CompositorState, output_id: OutputId, width: i32, height: i32)
    requires
        old(state).wf(),
    ensures
        final(state).wf(),
        final(state)@ == old(state)@.output_resized(output_id, width, height),
{
    if let Some(i) = find_output(&state.outputs, output_id) {
        let known = state.outputs.remove(i);
        let updated = Output {
            id: known.id,
            name: known.name,
            description: known.description,
            geometry: OutputGeometry {
                physical_width: width,
                physical_height: height,
                ..known.geometry
            },
            modes: resize_modes(&known.modes, width, height),
            scale: known.scale,
        };
        state.outputs.insert(i, updated);
        assert(old(state)@.outputs[i as int] == old(state).outputs@[i as int]@);
        assert(state@.outputs =~= old(state)@.outputs.update(
            i as int,
            resized(old(state)@.outputs[i as int], width, height),
        ));
    }
    wl_output::broadcast_mode(state);
    state.dirty = true;
}

/// Do what no display paces: notice that a buffer has stopped being read, keep
/// windows inside their outputs, and pace the clients whose surfaces no display
/// is showing. Gives the scenes of outputs that have gone, to be released once
/// the backend has done with them.
pub fn housekeep(state: &mut CompositorState, pacer: &mut FramePacer, timestamp_ms: u32) -> (r: Vec<
    Scene,
>)
    requires
        old(state).wf(),
        old(pacer).wf(),
    ensures
        final(state).wf(),
        final(pacer).wf(),
        final(state)@ == old(state)@.housekept(timestamp_ms),
        ({
            let s = old(state)@.surface_outputs_updated().confined().0;
            &&& final(pacer)@ == old(pacer)@.trimmed(s)
            &&& scenes_view(r@) == old(pacer)@.orphaned(s)
        }),
{
    update_surface_outputs(state);
    // Windows belong to one output and stay inside it, so a client resizing
    // itself or an output changing size can move them.
    let moved = state.confine_toplevels();
    let gone = pacer.forget_gone_outputs(state);
    if moved {
        state.dirty = true;
    }
    // A bell that has run its course has to be taken off the screen, and
    // nothing else would notice it had expired.
    state.expire_bells();
    // Surfaces no display is showing are paced from here, because nothing else
    // will pace them: no output will ever report presenting them. Their
    // presentation feedback is `discarded` rather than `presented`, which is
    // what it is - nothing reached a screen.
    fire_frame_callbacks(state, timestamp_ms, FrameTarget::Offscreen, None);
    // Both independent of the frame path: a buffer becomes free when the last
    // frame referencing it goes, which can happen on a tick where nothing has
    // changed.
    start_buffer_releases(state);
    finish_buffer_releases(state);
    gone
}

/// Something a client's socket has to say.
#[derive(Debug)]
pub enum WaylandSocketMessage {
    /// A client has connected, and its queue has room for some messages.
    NewClient { client_id: u32, room: u32 },
    /// Descriptors have arrived from a client, ahead of the request they are
    /// for.
    Descriptors { client_id: u32, fds: Vec<Fd> },
    /// A client has made a request.
    Message { request: WaylandProtocolMessageWithClientInfo, outside: Outside },
    /// A client has disconnected.
    ClientDisconnected { client_id: u32 },
}

impl WaylandSocketMessage {
    /// A request is no longer than what can be read from a socket.
    pub open spec fn fits(self) -> bool {
        self matches WaylandSocketMessage::Message { request, .. } ==> request@.fits()
    }
}

/// Something the backend has to say. Positions and distances are in 256ths of a
/// pixel.
#[derive(Debug)]
pub enum BackendMessage {
    /// What the seat can do
    SeatCapabilities { pointer: bool, keyboard: bool, touch: bool },
    /// Which outputs there are
    OutputInfo { outputs: Vec<Output> },
    /// Which dma-bufs can be imported
    DmabufSupport { formats: Vec<DmabufFormat>, probe: DmabufProbe },
    /// What came of trying to import a dma-buf
    DmabufImportResult { token: u64, imported: bool },
    /// The backend is going away
    Closed,
    /// An output has another resolution
    Resized { output_id: OutputId, width: i32, height: i32 },
    /// A key
    KeyInput { keycode: u32, key_state: KeyState, modifiers: Modifiers },
    /// The pointer is somewhere else
    MouseMovedTo { x: i64, y: i64 },
    /// The pointer has moved by some distance
    MouseMovedBy { dx: i64, dy: i64 },
    /// A button
    MouseButton { button: MouseButton, button_state: ButtonState },
    /// A finger has landed
    TouchDown { id: i32, x: i64, y: i64 },
    /// A finger has moved
    TouchMotion { id: i32, x: i64, y: i64 },
    /// A finger has been lifted
    TouchUp { id: i32 },
    /// The touch sequence has been taken over
    TouchCancel,
    /// A scroll
    MouseScroll { scroll: Scroll },
    /// A touchpad scroll has finished
    MouseScrollEnd,
    /// The backend's window has the focus
    FocusIn,
    /// The backend's window has lost the focus
    FocusOut,
    /// Another frame can be shown on an output
    FrameRequested { output_id: OutputId },
    /// A frame has reached the screen on an output
    FramePresented { output_id: OutputId, presented_at: PresentedAt },
}

impl BackendMessage {
    /// What outputs are called is short enough to be passed on.
    pub open spec fn fits(self) -> bool {
        self matches BackendMessage::OutputInfo { outputs } ==> forall|i: int|
            0 <= i < outputs@.len() ==> state::output_fits((#[trigger] outputs@[i])@)
    }
}

impl State {
    /// The state once a message from a client's socket has been dealt with.
    pub open spec fn socket_handled(self, message: WaylandSocketMessage) -> Self {
        match message {
            WaylandSocketMessage::NewClient { client_id, room } => State {
                clients: self.clients.insert(client_id, ClientView::fresh(room)),
                ..self
            },
            WaylandSocketMessage::Descriptors { client_id, fds } => self.fds_received(
                client_id,
                fds@,
            ),
            WaylandSocketMessage::Message { request, outside } => self.message_handled(
                request@,
                outside,
            ),
            WaylandSocketMessage::ClientDisconnected { client_id } => self.disconnected(client_id),
        }
    }

    /// The state once a message about the backend has been dealt with.
    pub open spec fn device_handled(self, time_ms: u32, message: BackendMessage) -> Self {
        match message {
            BackendMessage::SeatCapabilities { pointer, keyboard, touch } => self.seat_changed(
                SeatState { has_pointer: pointer, has_keyboard: keyboard, has_touch: touch },
            ),
            BackendMessage::OutputInfo { outputs } => self.outputs_listed(
                shared::outputs_view(outputs@),
            ),
            BackendMessage::DmabufSupport { formats, .. } => self.formats_known(
                formats_view(formats@),
            ),
            BackendMessage::DmabufImportResult { token, imported } => self.import_resolved(
                token,
                imported,
            ),
            BackendMessage::Resized { output_id, width, height } => self.output_resized(
                output_id,
                width,
                height,
            ),
            BackendMessage::FramePresented { output_id, presented_at } => self.frames_fired(
                time_ms,
                FrameTarget::Output(output_id),
                Some(presented_at),
            ),
            _ => self,
        }
    }

    /// The state once input has been dealt with.
    pub open spec fn input_handled(self, time_ms: u32, message: BackendMessage) -> Self {
        match message {
            BackendMessage::KeyInput { keycode, key_state, modifiers } => self.key_handled(
                time_ms,
                keycode,
                key_state == KeyState::Pressed,
                modifiers,
            ),
            BackendMessage::MouseMovedTo { x, y } => self.cursor_moved(x, y).motion_handled(
                time_ms,
            ),
            BackendMessage::MouseMovedBy { dx, dy } => self.cursor_moved(
                windows::held(self.cursor_x + dx, i64::MIN as int, i64::MAX as int) as i64,
                windows::held(self.cursor_y + dy, i64::MIN as int, i64::MAX as int) as i64,
            ).motion_handled(time_ms),
            BackendMessage::MouseButton { button, button_state } => self.button_handled(
                time_ms,
                button,
                button_state == ButtonState::Pressed,
            ),
            BackendMessage::TouchDown { id, x, y } => self.touch_landed(time_ms, id, x, y),
            BackendMessage::TouchMotion { id, x, y } => self.touch_slid(time_ms, id, x, y),
            BackendMessage::TouchUp { id } => self.touch_lifted(time_ms, id),
            BackendMessage::TouchCancel => self.touches_voided(),
            BackendMessage::MouseScroll { scroll } => self.scroll_handled(time_ms, scroll),
            BackendMessage::MouseScrollEnd => self.scroll_end_handled(time_ms),
            _ => self,
        }
    }

    /// A message is about input.
    pub open spec fn is_input(message: BackendMessage) -> bool {
        match message {
            BackendMessage::KeyInput { .. } => true,
            BackendMessage::MouseMovedTo { .. } => true,
            BackendMessage::MouseMovedBy { .. } => true,
            BackendMessage::MouseButton { .. } => true,
            BackendMessage::TouchDown { .. } => true,
            BackendMessage::TouchMotion { .. } => true,
            BackendMessage::TouchUp { .. } => true,
            BackendMessage::TouchCancel => true,
            BackendMessage::MouseScroll { .. } => true,
            BackendMessage::MouseScrollEnd => true,
            _ => false,
        }
    }

    /// The state once a message from the backend has been dealt with.
    pub open spec fn backend_handled(self, time_ms: u32, message: BackendMessage) -> Self {
        if State::is_input(message) {
            self.input_handled(time_ms, message)
        } else {
            self.device_handled(time_ms, message)
        }
    }
}

impl PacerView {
    /// The pacer once a message from the backend has been dealt with.
    pub open spec fn backend_handled(self, message: BackendMessage) -> Self {
        match message {
            BackendMessage::FrameRequested { output_id } => self.requested(output_id),
            _ => self,
        }
    }
}

/// Deal with a message from a client's socket.
pub fn handle_socket(state: &mut CompositorState, message: WaylandSocketMessage)
    requires
        old(state).wf(),
        message.fits(),
    ensures
        final(state).wf(),
        final(state)@ == old(state)@.socket_handled(message),
{
    match message {
        WaylandSocketMessage::NewClient { client_id, room } => state.clients.create(
            client_id,
            room,
        ),
        WaylandSocketMessage::Descriptors { client_id, fds } => receive_fds(
            state,
            client_id,
            fds,
        ),
        WaylandSocketMessage::Message { request, outside } => handle_message(
            state,
            &request,
            outside,
        ),
        WaylandSocketMessage::ClientDisconnected { client_id } => client_disconnected(
            state,
            client_id,
        ),
    }
}

/// Deal with input.
fn handle_input(state: &mut CompositorState, time_ms: u32, message: BackendMessage)
    requires
        old(state).wf(),
    ensures
        final(state).wf(),
        final(state)@ == old(state)@.input_handled(time_ms, message),
{
    match message {
        BackendMessage::KeyInput { keycode, key_state, modifiers } => {
            let pressed = match key_state {
                KeyState::Pressed => true,
                KeyState::Released => false,
            };
            key_input(state, time_ms, keycode, pressed, modifiers);
        },
        BackendMessage::MouseMovedTo { x, y } => {
            state.move_cursor_to(x, y);
            deliver_pointer_motion(state, time_ms);
        },
        BackendMessage::MouseMovedBy { dx, dy } => {
            state.move_cursor_by(dx, dy);
            deliver_pointer_motion(state, time_ms);
        },
        BackendMessage::MouseButton { button, button_state } => {
            let pressed = match button_state {
                ButtonState::Pressed => true,
                ButtonState::Released => false,
            };
            mouse_button(state, time_ms, button, pressed);
        },
        BackendMessage::TouchDown { id, x, y } => touch_down(state, time_ms, id, x, y),
        BackendMessage::TouchMotion { id, x, y } => touch_motion(state, time_ms, id, x, y),
        BackendMessage::TouchUp { id } => touch_up(state, time_ms, id),
        BackendMessage::TouchCancel => touch_cancel(state),
        BackendMessage::MouseScroll { scroll } => deliver_scroll(state, time_ms, scroll),
        BackendMessage::MouseScrollEnd => deliver_scroll_end(state, time_ms),
        _ => {},
    }
}

/// Deal with a message from the backend about anything but input and pacing.
fn handle_device(state: &mut CompositorState, time_ms: u32, message: BackendMessage)
    requires
        old(state).wf(),
        message.fits(),
    ensures
        final(state).wf(),
        final(state)@ == old(state)@.device_handled(time_ms, message),
{
    match message {
        BackendMessage::SeatCapabilities { pointer, keyboard, touch } => set_seat_capabilities(
            state,
            SeatState { has_pointer: pointer, has_keyboard: keyboard, has_touch: touch },
        ),
        BackendMessage::OutputInfo { outputs } => set_outputs(state, outputs),
        BackendMessage::DmabufSupport { formats, .. } => set_dmabuf_formats(state, formats),
        BackendMessage::DmabufImportResult { token, imported } => {
            zwp_linux_buffer_params::resolve_import(state, token, imported);
        },
        BackendMessage::Resized { output_id, width, height } => resize_output(
            state,
            output_id,
            width,
            height,
        ),
        BackendMessage::FramePresented { output_id, presented_at } => {
            // Clients pace themselves on this, so it follows the frame reaching
            // the screen rather than the compositor handing it over. Callbacks
            // live in surface state until fired, so a frame the backend skipped
            // costs a client latency but never a lost callback.
            //
            // Only the surfaces this output was showing: a client with a window
            // on each of two displays is paced by each of them separately,
            // which is the whole point of the output being named here.
            fire_frame_callbacks(
                state,
                time_ms,
                FrameTarget::Output(output_id),
                Some(presented_at),
            );
        },
        _ => {},
    }
}

/// Deal with a message from the backend. Returns whether the compositor is to
/// go on.
pub fn handle_backend(
    state: &mut CompositorState,
    pacer: &mut FramePacer,
    time_ms: u32,
    message: BackendMessage,
) -> (r: bool)
    requires
        old(state).wf(),
        old(pacer).wf(),
        message.fits(),
    ensures
        final(state).wf(),
        final(pacer).wf(),
        final(state)@ == old(state)@.backend_handled(time_ms, message),
        final(pacer)@ == old(pacer)@.backend_handled(message),
        r == (message !is Closed),
{
    match message {
        BackendMessage::Closed => {
            return false;
        },
        // The backend can show another frame here. Whether one gets composed is
        // settled after every pass, where both halves of that decision are in
        // view.
        BackendMessage::FrameRequested { output_id } => {
            pacer.request(output_id);
            return true;
        },
        BackendMessage::SeatCapabilities { .. } => handle_device(state, time_ms, message),
        BackendMessage::OutputInfo { .. } => handle_device(state, time_ms, message),
        BackendMessage::DmabufSupport { .. } => handle_device(state, time_ms, message),
        BackendMessage::DmabufImportResult { .. } => handle_device(state, time_ms, message),
        BackendMessage::Resized { .. } => handle_device(state, time_ms, message),
        BackendMessage::FramePresented { .. } => handle_device(state, time_ms, message),
        BackendMessage::FocusIn => {},
        BackendMessage::FocusOut => {},
        _ => handle_input(state, time_ms, message),
    }
    true
}

} // verus!

//! What follows a frame: which outputs surfaces are on, frame callbacks,
//! presentation feedback, and giving buffers back.

use crate::hits::surface_dimensions;
use crate::objects::{self, saturating_sum, SurfaceView};
use crate::protocol::{wl_buffer, wl_callback, wl_surface, wp_presentation_feedback};
use crate::seqs;
use crate::shared::{Output, OutputId, OutputView, PresentedAt};
use crate::state::{self, CompositorState, State};
use crate::table;
use crate::tree::{self, is_visible, surface_global_position};
use crate::windows;
use crate::wire::{self, build_message, tell0, ArgWriter};
use crate::workspace::ClientObjectId;
use vstd::prelude::*;

verus! {

/// Whose frame callbacks a presentation settles.
#[derive(Debug, Clone, Copy, PartialEq, Eq, Structural)]
pub enum FrameTarget {
    /// The surfaces shown on one output, because that output presented.
    Output(OutputId),
    /// The surfaces no output is showing.
    ///
    /// A client waiting on `wl_surface.frame` for one of these would otherwise
    /// wait forever, and it is not always a window the user has hidden: a
    /// client's first commit typically carries no buffer and a frame request,
    /// and it will not draw anything until that callback comes back.
    Offscreen,
}

/// Presented in step with the display's refresh.
pub const KIND_VSYNC: u32 = 1;

impl OutputView {
    /// Something of this size at this place is at least partly on this output.
    pub open spec fn overlaps(self, position: (i32, i32), size: (i32, i32)) -> bool {
        &&& position.0 < self.x + self.width
        &&& objects::saturated(position.0 + size.0) > self.x
        &&& position.1 < self.y + self.height
        &&& objects::saturated(position.1 + size.1) > self.y
    }
}

/// An output that something is on.
pub open spec fn showing(position: (i32, i32), size: (i32, i32)) -> spec_fn(OutputView) -> bool {
    |o: OutputView| o.overlaps(position, size)
}

/// An output that something has come onto.
pub open spec fn newly_showing(
    position: (i32, i32),
    size: (i32, i32),
    entered: Seq<OutputId>,
) -> spec_fn(OutputView) -> bool {
    |o: OutputView| o.overlaps(position, size) && !entered.contains(o.id)
}

/// An output that something has gone from.
pub open spec fn no_longer_showing(
    position: (i32, i32),
    size: (i32, i32),
    entered: Seq<OutputId>,
) -> spec_fn(OutputView) -> bool {
    |o: OutputView| !o.overlaps(position, size) && entered.contains(o.id)
}

/// Some surfaces, each with every output that a function gives for it.
pub open spec fn crossings(keys: Seq<ClientObjectId>, f: spec_fn(ClientObjectId) -> Seq<OutputId>) -> Seq<
    (ClientObjectId, OutputId),
>
    decreases keys.len(),
{
    if keys.len() == 0 {
        Seq::empty()
    } else {
        crossings(keys.drop_last(), f) + with_surface(keys.last(), f(keys.last()))
    }
}

/// A surface with each of some outputs.
pub open spec fn with_surface(key: ClientObjectId, ids: Seq<OutputId>) -> Seq<
    (ClientObjectId, OutputId),
> {
    ids.map_values(|id: OutputId| (key, id))
}

/// The outputs each surface has come onto.
pub open spec fn arrivals(s: State) -> spec_fn(ClientObjectId) -> Seq<OutputId> {
    |key: ClientObjectId| s.outputs_reached(key)
}

/// The outputs each surface has gone from.
pub open spec fn departures(s: State) -> spec_fn(ClientObjectId) -> Seq<OutputId> {
    |key: ClientObjectId| s.outputs_left(key)
}

/// Note which outputs one surface is on, as a state says.
pub open spec fn noting(s0: State) -> spec_fn(State, ClientObjectId) -> State {
    |s: State, key: ClientObjectId| s.visibility_noted(key, s0.outputs_showing(key))
}

/// Tell a client that one of its surfaces is on an output.
pub open spec fn arriving() -> spec_fn(State, (ClientObjectId, OutputId)) -> State {
    |s: State, c: (ClientObjectId, OutputId)| s.arrival_told(c.0, c.1)
}

/// Tell a client that one of its surfaces is not on an output.
pub open spec fn departing() -> spec_fn(State, (ClientObjectId, OutputId)) -> State {
    |s: State, c: (ClientObjectId, OutputId)| s.departure_told(c.0, c.1)
}

/// Name one of a client's objects for an output that a surface is on.
pub open spec fn naming_entered(key: ClientObjectId) -> spec_fn(State, u32) -> State {
    |s: State, object: u32| s.surface_entered(key.0, key.1, object)
}

/// Name one of a client's objects for an output that a surface is not on.
pub open spec fn naming_left(key: ClientObjectId) -> spec_fn(State, u32) -> State {
    |s: State, object: u32| s.surface_left(key.0, key.1, object)
}

/// An object that stands for an output.
pub open spec fn standing_for(bindings: Map<ClientObjectId, OutputId>, id: OutputId) -> spec_fn(
    ClientObjectId,
) -> bool {
    |k: ClientObjectId| bindings[k] == id
}

/// An output other than one.
pub open spec fn other_output(id: OutputId) -> spec_fn(OutputId) -> bool {
    |o: OutputId| o != id
}

impl State {
    /// A surface is shown by no output.
    pub open spec fn out_of_sight(self, key: ClientObjectId) -> bool {
        self.surfaces[key].buffer_id is None || !self.is_shown(key)
    }

    /// The outputs a surface is on.
    pub open spec fn outputs_showing(self, key: ClientObjectId) -> Seq<OutputId> {
        if self.out_of_sight(key) {
            Seq::empty()
        } else {
            windows::output_ids(
                self.outputs.filter(
                    showing(self.global_position(key), self.dimensions_of(key)),
                ),
            )
        }
    }

    /// The outputs a surface is on without its client having been told.
    pub open spec fn outputs_reached(self, key: ClientObjectId) -> Seq<OutputId> {
        if self.out_of_sight(key) {
            Seq::empty()
        } else {
            windows::output_ids(
                self.outputs.filter(
                    newly_showing(
                        self.global_position(key),
                        self.dimensions_of(key),
                        self.surfaces[key].entered_outputs,
                    ),
                ),
            )
        }
    }

    /// The outputs a surface is not on though its client has been told it is.
    pub open spec fn outputs_left(self, key: ClientObjectId) -> Seq<OutputId> {
        if self.out_of_sight(key) {
            self.surfaces[key].entered_outputs
        } else {
            windows::output_ids(
                self.outputs.filter(
                    no_longer_showing(
                        self.global_position(key),
                        self.dimensions_of(key),
                        self.surfaces[key].entered_outputs,
                    ),
                ),
            )
        }
    }

    /// The state with it noted which outputs a surface is on.
    pub open spec fn visibility_noted(self, key: ClientObjectId, ids: Seq<OutputId>) -> Self {
        if self.surfaces.contains_key(key) {
            State {
                surfaces: self.surfaces.insert(
                    key,
                    SurfaceView { visible_on: ids, ..self.surfaces[key] },
                ),
                ..self
            }
        } else {
            self
        }
    }

    /// The client's `wl_output` objects for an output.
    pub open spec fn output_objects(self, client_id: u32, id: OutputId) -> Seq<u32> {
        table::client_keys(self.output_bindings.dom(), client_id).filter(
            standing_for(self.output_bindings, id),
        ).map_values(|k: ClientObjectId| k.1)
    }

    /// The state with it noted which outputs a client knows a surface is on.
    pub open spec fn entered_noted(self, key: ClientObjectId, ids: Seq<OutputId>) -> Self {
        State {
            surfaces: self.surfaces.insert(
                key,
                SurfaceView { entered_outputs: ids, ..self.surfaces[key] },
            ),
            ..self
        }
    }

    /// The state once a client has been told that a surface is on an output, if
    /// it has an object for the output to be told by.
    pub open spec fn arrival_told(self, key: ClientObjectId, id: OutputId) -> Self {
        let named = self.output_objects(key.0, id);
        if named.len() == 0 {
            self
        } else {
            let s = state::each(self, named, naming_entered(key));
            if s.surfaces.contains_key(key) && !s.surfaces[key].entered_outputs.contains(id) {
                s.entered_noted(key, s.surfaces[key].entered_outputs.push(id))
            } else {
                s
            }
        }
    }

    /// The state once a client has been told that a surface is not on an
    /// output.
    pub open spec fn departure_told(self, key: ClientObjectId, id: OutputId) -> Self {
        let s = state::each(self, self.output_objects(key.0, id), naming_left(key));
        if s.surfaces.contains_key(key) {
            s.entered_noted(key, s.surfaces[key].entered_outputs.filter(other_output(id)))
        } else {
            s
        }
    }

    /// The state once every client knows which outputs its surfaces are on.
    pub open spec fn surface_outputs_updated(self) -> Self {
        let keys = table::ordered(self.surfaces.dom());
        let s = state::each(self, keys, noting(self));
        let s = state::each(s, crossings(keys, arrivals(self)), arriving());
        state::each(s, crossings(keys, departures(self)), departing())
    }
}

/// Whether something of this size at this place is at least partly on an
/// output.
fn overlaps(output: &Output, position: (i32, i32), size: (i32, i32)) -> (r: bool)
    ensures
        r == output@.overlaps(position, size),
{
    let g = &output.geometry;
    (position.0 as i64) < g.x as i64 + g.physical_width as i64 && saturating_sum(
        position.0,
        size.0,
    ) > g.x && (position.1 as i64) < g.y as i64 + g.physical_height as i64 && saturating_sum(
        position.1,
        size.1,
    ) > g.y
}

/// Whether an output is among some.
pub fn has_output(ids: &Vec<OutputId>, id: OutputId) -> (r: bool)
    ensures
        r == ids@.contains(id),
{
    let mut i: usize = 0;
    while i < ids.len()
        invariant
            i <= ids@.len(),
            forall|j: int| 0 <= j < i ==> ids@[j] != id,
        decreases ids@.len() - i,
    {
        if ids[i] == id {
            assert(ids@[i as int] == id);
            return true;
        }
        i = i + 1;
    }
    false
}

/// Copy some outputs.
fn copy_outputs(ids: &Vec<OutputId>) -> (r: Vec<OutputId>)
    ensures
        r@ == ids@,
{
    let mut r: Vec<OutputId> = Vec::new();
    let mut i: usize = 0;
    while i < ids.len()
        invariant
            i <= ids@.len(),
            r@ == ids@.take(i as int),
        decreases ids@.len() - i,
    {
        r.push(ids[i]);
        assert(r@ =~= ids@.take(i as int + 1));
        i = i + 1;
    }
    assert(r@ =~= ids@);
    r
}

/// Which outputs a surface is on.
struct Crossing {
    /// The outputs the surface is on
    on: Vec<OutputId>,
    /// Those of them the client has not been told of
    reached: Vec<OutputId>,
    /// The outputs the client has been told of that the surface is not on
    left: Vec<OutputId>,
}

/// Work out which outputs a surface is on, and what of that is news.
fn surface_crossing(state: &CompositorState, key: ClientObjectId) -> (r: Crossing)
    requires
        state.wf(),
        state@.surfaces.contains_key(key),
    ensures
        r.on@ == state@.outputs_showing(key),
        r.reached@ == state@.outputs_reached(key),
        r.left@ == state@.outputs_left(key),
{
    let mut r = Crossing { on: Vec::new(), reached: Vec::new(), left: Vec::new() };
    let surface = match state.surfaces.get(key) {
        Some(surface) => surface,
        None => {
            return r;
        },
    };
    // An unmapped surface is on no output, and neither is one belonging to a
    // window on a workspace that is not showing.
    if surface.buffer_id.is_none() || !is_visible(state, key) {
        r.left = copy_outputs(&surface.entered_outputs);
        return r;
    }
    let position: (i32, i32) = surface_global_position(state, key.0, key.1);
    let size: (i32, i32) = surface_dimensions(state, key);
    let ghost entered = surface.entered_outputs@;
    let ghost (p, q, t) = (
        showing(position, size),
        newly_showing(position, size, entered),
        no_longer_showing(position, size, entered),
    );
    let ghost outputs = state@.outputs;
    let mut i: usize = 0;
    proof {
        reveal(Seq::filter);
        assert(outputs.take(0) =~= Seq::empty());
    }
    while i < state.outputs.len()
        invariant
            i <= state.outputs@.len(),
            outputs == state@.outputs,
            entered == surface.entered_outputs@,
            p == showing(position, size),
            q == newly_showing(position, size, entered),
            t == no_longer_showing(position, size, entered),
            r.on@ == windows::output_ids(outputs.take(i as int).filter(p)),
            r.reached@ == windows::output_ids(outputs.take(i as int).filter(q)),
            r.left@ == windows::output_ids(outputs.take(i as int).filter(t)),
        decreases state.outputs@.len() - i,
    {
        assert(outputs[i as int] == state.outputs@[i as int]@);
        proof {
            seqs::lemma_filter_step(outputs, p, i as int);
            seqs::lemma_filter_step(outputs, q, i as int);
            seqs::lemma_filter_step(outputs, t, i as int);
        }
        let id = state.outputs[i].id;
        let here = overlaps(&state.outputs[i], position, size);
        let told = has_output(&surface.entered_outputs, id);
        if here {
            r.on.push(id);
        }
        if here && !told {
            r.reached.push(id);
        }
        if !here && told {
            r.left.push(id);
        }
        assert(r.on@ =~= windows::output_ids(outputs.take(i as int + 1).filter(p)));
        assert(r.reached@ =~= windows::output_ids(outputs.take(i as int + 1).filter(q)));
        assert(r.left@ =~= windows::output_ids(outputs.take(i as int + 1).filter(t)));
        i = i + 1;
    }
    assert(outputs.take(i as int) =~= outputs);
    r
}

/// Add a surface with each of some outputs.
fn add_crossings(
    to: &mut Vec<(ClientObjectId, OutputId)>,
    key: ClientObjectId,
    ids: &Vec<OutputId>,
)
    ensures
        final(to)@ == old(to)@ + with_surface(key, ids@),
{
    let mut i: usize = 0;
    assert(to@ =~= old(to)@ + with_surface(key, ids@.take(0)));
    while i < ids.len()
        invariant
            i <= ids@.len(),
            to@ == old(to)@ + with_surface(key, ids@.take(i as int)),
        decreases ids@.len() - i,
    {
        to.push((key, ids[i]));
        assert(to@ =~= old(to)@ + with_surface(key, ids@.take(i as int + 1)));
        i = i + 1;
    }
    assert(ids@.take(i as int) =~= ids@);
}

/// The client's `wl_output` object ids that refer to a given output. A client
/// may bind the same output more than once, and each binding is a distinct
/// object the events have to be sent for.
pub fn bound_output_objects(state: &CompositorState, client_id: u32, output_id: OutputId) -> (r:
    Vec<u32>)
    requires
        state.wf(),
    ensures
        r@ == state@.output_objects(client_id, output_id),
{
    let keys = state.output_bindings.keys_of(client_id);
    let ghost p = standing_for(state@.output_bindings, output_id);
    let mut r: Vec<u32> = Vec::new();
    let mut i: usize = 0;
    proof {
        reveal(Seq::filter);
        assert(keys@.take(0) =~= Seq::empty());
        assert forall|k: ClientObjectId| keys@.contains(k) implies state@.output_bindings.contains_key(
            k,
        ) by {
            state.output_bindings.lemma_listed();
            seqs::lemma_filter_contains(
                table::ordered(state@.output_bindings.dom()),
                table::of_client(client_id),
                k,
            );
        }
    }
    while i < keys.len()
        invariant
            state.wf(),
            i <= keys@.len(),
            p == standing_for(state@.output_bindings, output_id),
            forall|k: ClientObjectId|
                keys@.contains(k) ==> state@.output_bindings.contains_key(k),
            r@ == keys@.take(i as int).filter(p).map_values(|k: ClientObjectId| k.1),
        decreases keys@.len() - i,
    {
        proof {
            seqs::lemma_filter_step(keys@, p, i as int);
            assert(keys@.contains(keys@[i as int]));
        }
        if let Some(id) = state.output_bindings.get(keys[i]) {
            if *id == output_id {
                r.push(keys[i].1);
            }
        }
        assert(r@ =~= keys@.take(i as int + 1).filter(p).map_values(|k: ClientObjectId| k.1));
        i = i + 1;
    }
    assert(keys@.take(i as int) =~= keys@);
    r
}

/// Tell a client that one of its surfaces is on an output.
fn send_arrival(state: &mut CompositorState, key: ClientObjectId, output_id: OutputId)
    requires
        old(state).wf(),
    ensures
        final(state).wf(),
        final(state)@ == old(state)@.arrival_told(key, output_id),
{
    let objects = bound_output_objects(state, key.0, output_id);
    // A client that has not bound this output has no object we could name, so
    // leave the surface unmarked and try again once it binds.
    if objects.len() == 0 {
        return ;
    }
    let ghost start = state@;
    let ghost f = naming_entered(key);
    let mut i: usize = 0;
    proof {
        state::lemma_each_ends(start, objects@, f);
    }
    while i < objects.len()
        invariant
            state.wf(),
            i <= objects@.len(),
            f == naming_entered(key),
            state@ == state::each(start, objects@.take(i as int), f),
        decreases objects@.len() - i,
    {
        proof {
            state::lemma_each_step(start, objects@, f, i as int);
        }
        wl_surface::send_enter(state, key.0, key.1, objects[i]);
        i = i + 1;
    }
    proof {
        state::lemma_each_ends(start, objects@, f);
    }
    let ghost told = state@;
    if let Some(surface) = state.surfaces.get_mut(key) {
        if !has_output(&surface.entered_outputs, output_id) {
            surface.entered_outputs.push(output_id);
        }
    }
    proof {
        assert(tree::surface_links(state@.surfaces) =~= tree::surface_links(told.surfaces));
        if told.surfaces.contains_key(key) && told.surfaces[key].entered_outputs.contains(
            output_id,
        ) {
            assert(state@.surfaces =~= told.surfaces);
        }
    }
}

/// Keep every output but one.
pub fn drop_output(ids: &mut Vec<OutputId>, id: OutputId)
    ensures
        final(ids)@ == old(ids)@.filter(other_output(id)),
{
    let mut kept: Vec<OutputId> = Vec::new();
    let ghost p = other_output(id);
    let mut i: usize = 0;
    proof {
        reveal(Seq::filter);
        assert(ids@.take(0) =~= Seq::empty());
    }
    while i < ids.len()
        invariant
            i <= ids@.len(),
            ids@ == old(ids)@,
            p == other_output(id),
            kept@ == ids@.take(i as int).filter(p),
        decreases ids@.len() - i,
    {
        proof {
            seqs::lemma_filter_step(ids@, p, i as int);
        }
        if ids[i] != id {
            kept.push(ids[i]);
        }
        i = i + 1;
    }
    assert(ids@.take(i as int) =~= ids@);
    *ids = kept;
}

/// Tell a client that one of its surfaces is not on an output.
fn send_departure(state: &mut CompositorState, key: ClientObjectId, output_id: OutputId)
    requires
        old(state).wf(),
    ensures
        final(state).wf(),
        final(state)@ == old(state)@.departure_told(key, output_id),
{
    let objects = bound_output_objects(state, key.0, output_id);
    let ghost start = state@;
    let ghost f = naming_left(key);
    let mut i: usize = 0;
    proof {
        state::lemma_each_ends(start, objects@, f);
    }
    while i < objects.len()
        invariant
            state.wf(),
            i <= objects@.len(),
            f == naming_left(key),
            state@ == state::each(start, objects@.take(i as int), f),
        decreases objects@.len() - i,
    {
        proof {
            state::lemma_each_step(start, objects@, f, i as int);
        }
        wl_surface::send_leave(state, key.0, key.1, objects[i]);
        i = i + 1;
    }
    proof {
        state::lemma_each_ends(start, objects@, f);
    }
    let ghost told = state@;
    if let Some(surface) = state.surfaces.get_mut(key) {
        drop_output(&mut surface.entered_outputs, output_id);
    }
    assert(tree::surface_links(state@.surfaces) =~= tree::surface_links(told.surfaces));
}

/// Note which outputs a surface is on.
fn note_visibility(state: &mut CompositorState, key: ClientObjectId, ids: Vec<OutputId>)
    requires
        old(state).wf(),
    ensures
        final(state).wf(),
        final(state)@ == old(state)@.visibility_noted(key, ids@),
{
    if let Some(surface) = state.surfaces.get_mut(key) {
        surface.visible_on = ids;
    }
    assert(tree::surface_links(state@.surfaces) =~= tree::surface_links(old(state)@.surfaces));
}

/// Tell clients which outputs each of their surfaces is displayed on.
///
/// A client cannot choose a buffer scale without this: `wl_output.scale` is per
/// output, so the surface has to know which outputs it overlaps. The full set is
/// recomputed and diffed against what each surface has already been told, so
/// this is idempotent and safe to run every frame.
pub fn update_surface_outputs(state: &mut CompositorState)
    requires
        old(state).wf(),
    ensures
        final(state).wf(),
        final(state)@ == old(state)@.surface_outputs_updated(),
{
    let keys = state.surfaces.keys();
    let ghost first = state@;
    let mut enters: Vec<(ClientObjectId, OutputId)> = Vec::new();
    let mut leaves: Vec<(ClientObjectId, OutputId)> = Vec::new();
    // What is actually on screen, which is not what the client has been told:
    // an output it has not bound is one it cannot be told about.
    let mut visible: Vec<Vec<OutputId>> = Vec::new();
    let mut i: usize = 0;
    while i < keys.len()
        invariant
            state.wf(),
            state@ == first,
            i <= keys@.len(),
            table::lists(keys@, first.surfaces.dom()),
            visible@.len() == i,
            forall|j: int|
                0 <= j < i ==> (#[trigger] visible@[j])@ == first.outputs_showing(keys@[j]),
            enters@ == crossings(keys@.take(i as int), arrivals(first)),
            leaves@ == crossings(keys@.take(i as int), departures(first)),
        decreases keys@.len() - i,
    {
        assert(keys@.contains(keys@[i as int]));
        assert(keys@.take(i as int + 1).drop_last() =~= keys@.take(i as int));
        let crossing = surface_crossing(state, keys[i]);
        add_crossings(&mut enters, keys[i], &crossing.reached);
        add_crossings(&mut leaves, keys[i], &crossing.left);
        visible.push(crossing.on);
        i = i + 1;
    }
    assert(keys@.take(i as int) =~= keys@);
    store_visibility(state, &keys, &visible);
    send_arrivals(state, &enters);
    send_departures(state, &leaves);
}

/// Note which outputs some surfaces are on.
fn store_visibility(
    state: &mut CompositorState,
    keys: &Vec<ClientObjectId>,
    visible: &Vec<Vec<OutputId>>,
)
    requires
        old(state).wf(),
        visible@.len() == keys@.len(),
        forall|j: int|
            0 <= j < keys@.len() ==> (#[trigger] visible@[j])@ == old(state)@.outputs_showing(
                keys@[j],
            ),
    ensures
        final(state).wf(),
        final(state)@ == state::each(old(state)@, keys@, noting(old(state)@)),
{
    let ghost first = state@;
    let mut i: usize = 0;
    proof {
        state::lemma_each_ends(first, keys@, noting(first));
    }
    while i < keys.len()
        invariant
            state.wf(),
            i <= keys@.len(),
            visible@.len() == keys@.len(),
            forall|j: int|
                0 <= j < keys@.len() ==> (#[trigger] visible@[j])@ == first.outputs_showing(
                    keys@[j],
                ),
            state@ == state::each(first, keys@.take(i as int), noting(first)),
        decreases keys@.len() - i,
    {
        proof {
            state::lemma_each_step(first, keys@, noting(first), i as int);
            assert(visible@[i as int]@ == first.outputs_showing(keys@[i as int]));
        }
        note_visibility(state, keys[i], copy_outputs(&visible[i]));
        i = i + 1;
    }
    proof {
        state::lemma_each_ends(first, keys@, noting(first));
    }
}

/// Tell clients which surfaces are on outputs they were not on.
fn send_arrivals(state: &mut CompositorState, enters: &Vec<(ClientObjectId, OutputId)>)
    requires
        old(state).wf(),
    ensures
        final(state).wf(),
        final(state)@ == state::each(old(state)@, enters@, arriving()),
{
    let ghost start = state@;
    let mut i: usize = 0;
    proof {
        state::lemma_each_ends(start, enters@, arriving());
    }
    while i < enters.len()
        invariant
            state.wf(),
            i <= enters@.len(),
            state@ == state::each(start, enters@.take(i as int), arriving()),
        decreases enters@.len() - i,
    {
        proof {
            state::lemma_each_step(start, enters@, arriving(), i as int);
        }
        let (key, id) = enters[i];
        send_arrival(state, key, id);
        i = i + 1;
    }
    proof {
        state::lemma_each_ends(start, enters@, arriving());
    }
}

/// Tell clients which surfaces are no longer on outputs they were on.
fn send_departures(state: &mut CompositorState, leaves: &Vec<(ClientObjectId, OutputId)>)
    requires
        old(state).wf(),
    ensures
        final(state).wf(),
        final(state)@ == state::each(old(state)@, leaves@, departing()),
{
    let ghost start = state@;
    let mut i: usize = 0;
    proof {
        state::lemma_each_ends(start, leaves@, departing());
    }
    while i < leaves.len()
        invariant
            state.wf(),
            i <= leaves@.len(),
            state@ == state::each(start, leaves@.take(i as int), departing()),
        decreases leaves@.len() - i,
    {
        proof {
            state::lemma_each_step(start, leaves@, departing(), i as int);
        }
        let (key, id) = leaves[i];
        send_departure(state, key, id);
        i = i + 1;
    }
    proof {
        state::lemma_each_ends(start, leaves@, departing());
    }
}

/// What surfaces have been waiting for: the callbacks and the feedbacks, each
/// with the client that asked, as they come.
#[verifier::ext_equal]
pub struct Awaited {
    pub callbacks: Seq<ClientObjectId>,
    pub feedbacks: Seq<ClientObjectId>,
}

/// A presentation settles what a surface is waiting for.
pub open spec fn covers(target: FrameTarget, surface: SurfaceView) -> bool {
    match target {
        FrameTarget::Output(id) => surface.visible_on.contains(id),
        FrameTarget::Offscreen => surface.visible_on.len() == 0,
    }
}

/// Some objects of a client.
pub open spec fn of(client_id: u32, ids: Seq<u32>) -> Seq<ClientObjectId> {
    ids.map_values(|id: u32| (client_id, id))
}

/// Take what one surface has been waiting for, if this settles it.
pub open spec fn draining(target: FrameTarget) -> spec_fn(
    (State, Awaited),
    ClientObjectId,
) -> (State, Awaited) {
    |a: (State, Awaited), key: ClientObjectId|
        {
            let (s, w) = a;
            if covers(target, s.surfaces[key]) {
                let surface = s.surfaces[key];
                (
                    State {
                        surfaces: s.surfaces.insert(
                            key,
                            SurfaceView {
                                frame_callback: None,
                                presentation_feedbacks: Seq::empty(),
                                ..surface
                            },
                        ),
                        ..s
                    },
                    Awaited {
                        callbacks: match surface.frame_callback {
                            Some(id) => w.callbacks.push((key.0, id)),
                            None => w.callbacks,
                        },
                        feedbacks: w.feedbacks + of(key.0, surface.presentation_feedbacks),
                    },
                )
            } else {
                a
            }
        }
}

/// Tell one callback that its frame is done.
pub open spec fn firing(timestamp_ms: u32) -> spec_fn(State, ClientObjectId) -> State {
    |s: State, k: ClientObjectId| s.callback_done(k.0, k.1, timestamp_ms)
}

/// Tell one feedback what became of its frame.
pub open spec fn reporting(at: Option<PresentedAt>) -> spec_fn(State, ClientObjectId) -> State {
    |s: State, k: ClientObjectId| s.feedback_told(k, at)
}

/// A number where it fits in a word, and nothing where it does not.
pub open spec fn word_or_zero(v: i64) -> u32 {
    if 0 <= v <= u32::MAX {
        v as u32
    } else {
        0
    }
}

/// The upper word of a number, in two's complement.
pub open spec fn upper_word(v: i64) -> u32 {
    if v >= 0 {
        (v / 0x1_0000_0000) as u32
    } else {
        ((v + 0x1_0000_0000_0000_0000) / 0x1_0000_0000) as u32
    }
}

/// What a feedback is told of a frame that reached the screen.
pub open spec fn presented_event(id: u32, at: PresentedAt) -> wire::Message {
    wire::event(
        id,
        wp_presentation_feedback::PRESENTED,
        Seq::empty() + wire::le_bytes(upper_word(at.tv_sec)) + wire::le_bytes(
            word_or_zero(at.tv_sec),
        ) + wire::le_bytes(word_or_zero(at.tv_nsec)) + wire::le_bytes(0) + wire::le_bytes(0)
            + wire::le_bytes(0) + wire::le_bytes(KIND_VSYNC),
    )
}

impl State {
    /// The state once a feedback has been told what became of its frame. There
    /// is nothing else to tell it, so it is gone.
    pub open spec fn feedback_told(self, key: ClientObjectId, at: Option<PresentedAt>) -> Self {
        self.sent(
            key.0,
            match at {
                Some(at) => presented_event(key.1, at),
                None => wire::told0(key.1, wp_presentation_feedback::DISCARDED),
            },
        ).unregistered(key.0, key.1)
    }

    /// The state once no surface that a presentation settles is waiting for
    /// anything, and what they were waiting for.
    pub open spec fn drained(self, target: FrameTarget) -> (Self, Awaited) {
        state::each(
            (self, Awaited { callbacks: Seq::empty(), feedbacks: Seq::empty() }),
            table::ordered(self.surfaces.dom()),
            draining(target),
        )
    }

    /// The state once everyone waiting for a frame has been told of it.
    pub open spec fn frames_fired(
        self,
        timestamp_ms: u32,
        target: FrameTarget,
        at: Option<PresentedAt>,
    ) -> Self {
        let (s, w) = self.drained(target);
        state::each(
            state::each(s, w.callbacks, firing(timestamp_ms)),
            w.feedbacks,
            reporting(at),
        )
    }
}

/// Take what the surfaces a presentation settles have been waiting for.
fn drain(state: &mut CompositorState, target: FrameTarget) -> (r: (
    Vec<ClientObjectId>,
    Vec<ClientObjectId>,
))
    requires
        old(state).wf(),
    ensures
        final(state).wf(),
        (final(state)@, Awaited { callbacks: r.0@, feedbacks: r.1@ }) == old(state)@.drained(
            target,
        ),
{
    let keys = state.surfaces.keys();
    let mut callbacks: Vec<ClientObjectId> = Vec::new();
    let mut feedbacks: Vec<ClientObjectId> = Vec::new();
    let ghost start = (state@, Awaited { callbacks: Seq::empty(), feedbacks: Seq::empty() });
    let ghost f = draining(target);
    let mut i: usize = 0;
    proof {
        state::lemma_each_ends(start, keys@, f);
    }
    while i < keys.len()
        invariant
            state.wf(),
            i <= keys@.len(),
            f == draining(target),
            start.0.surfaces.dom() == state@.surfaces.dom(),
            table::lists(keys@, start.0.surfaces.dom()),
            (state@, Awaited { callbacks: callbacks@, feedbacks: feedbacks@ }) == state::each(
                start,
                keys@.take(i as int),
                f,
            ),
        decreases keys@.len() - i,
    {
        proof {
            state::lemma_each_step(start, keys@, f, i as int);
            assert(keys@.contains(keys@[i as int]));
            assert(state@.surfaces.contains_key(keys@[i as int]));
        }
        drain_surface(state, keys[i], target, &mut callbacks, &mut feedbacks);
        assert(start.0.surfaces.dom() =~= state@.surfaces.dom());
        i = i + 1;
    }
    proof {
        state::lemma_each_ends(start, keys@, f);
    }
    (callbacks, feedbacks)
}

/// Take what a surface has been waiting for, if this settles it.
fn drain_surface(
    state: &mut CompositorState,
    key: ClientObjectId,
    target: FrameTarget,
    callbacks: &mut Vec<ClientObjectId>,
    feedbacks: &mut Vec<ClientObjectId>,
)
    requires
        old(state).wf(),
        old(state)@.surfaces.contains_key(key),
    ensures
        final(state).wf(),
        (
            final(state)@,
            Awaited { callbacks: final(callbacks)@, feedbacks: final(feedbacks)@ },
        ) == draining(target)(
            (old(state)@, Awaited { callbacks: old(callbacks)@, feedbacks: old(feedbacks)@ }),
            key,
        ),
{
    let mut awaited: Vec<u32> = Vec::new();
    if let Some(surface) = state.surfaces.get_mut(key) {
        // What is on screen rather than what the client has been told: a client
        // that never bound `wl_output` has been told nothing, and pacing it on
        // that would leave it waiting on a callback that could not arrive.
        let covered = match target {
            FrameTarget::Output(id) => has_output(&surface.visible_on, id),
            FrameTarget::Offscreen => surface.visible_on.len() == 0,
        };
        if covered {
            if let Some(id) = surface.frame_callback.take() {
                callbacks.push((key.0, id));
            }
            std::mem::swap(&mut awaited, &mut surface.presentation_feedbacks);
        }
    }
    assert(tree::surface_links(state@.surfaces) =~= tree::surface_links(old(state)@.surfaces));
    proof {
        if !covers(target, old(state)@.surfaces[key]) {
            assert(state@.surfaces =~= old(state)@.surfaces);
        }
    }
    let ghost before = feedbacks@;
    let mut i: usize = 0;
    assert(feedbacks@ =~= before + of(key.0, awaited@.take(0)));
    while i < awaited.len()
        invariant
            i <= awaited@.len(),
            feedbacks@ == before + of(key.0, awaited@.take(i as int)),
        decreases awaited@.len() - i,
    {
        feedbacks.push((key.0, awaited[i]));
        assert(feedbacks@ =~= before + of(key.0, awaited@.take(i as int + 1)));
        i = i + 1;
    }
    assert(awaited@.take(i as int) =~= awaited@);
    assert(before + of(key.0, Seq::empty()) =~= before);
}

/// The upper word of a number, in two's complement.
fn high_word(v: i64) -> (r: u32)
    ensures
        r == upper_word(v),
{
    let wide: i128 = if v >= 0 { v as i128 } else { v as i128 + 0x1_0000_0000_0000_0000 };
    (wide / 0x1_0000_0000) as u32
}

/// A number where it fits in a word, and nothing where it does not.
fn low_word(v: i64) -> (r: u32)
    ensures
        r == word_or_zero(v),
{
    if v >= 0 && v <= u32::MAX as i64 {
        v as u32
    } else {
        0
    }
}

/// Tell a feedback what became of its frame.
///
/// Where nothing reached a screen, the feedback is discarded rather than
/// presented. A client hearing `presented` with a timestamp for a frame that
/// was never shown would be told a straightforward untruth, and the protocol
/// exists precisely to be accurate about this.
fn send_feedback(state: &mut CompositorState, key: ClientObjectId, at: Option<PresentedAt>)
    requires
        old(state).wf(),
    ensures
        final(state).wf(),
        final(state)@ == old(state)@.feedback_told(key, at),
{
    match at {
        Some(at) => {
            let args = ArgWriter::new().u32(high_word(at.tv_sec)).u32(low_word(at.tv_sec)).u32(
                low_word(at.tv_nsec),
            ).u32(0).u32(0).u32(0).u32(KIND_VSYNC).build();
            state.send(key.0, build_message(key.1, wp_presentation_feedback::PRESENTED, args));
        },
        None => state.send(key.0, tell0(key.1, wp_presentation_feedback::DISCARDED)),
    }
    state.unregister(key.0, key.1);
}

/// Fire the pending frame callbacks and presentation feedbacks of the surfaces
/// `target` covers.
///
/// `presented_at` is the moment the backend put the frame on screen, and
/// `None` says nothing was put anywhere - which is the honest answer for a
/// surface no output is showing, and makes its presentation feedback
/// `discarded` rather than a `presented` naming a time nothing happened.
pub fn fire_frame_callbacks(
    state: &mut CompositorState,
    timestamp_ms: u32,
    target: FrameTarget,
    presented_at: Option<PresentedAt>,
)
    requires
        old(state).wf(),
    ensures
        final(state).wf(),
        final(state)@ == old(state)@.frames_fired(timestamp_ms, target, presented_at),
{
    let (callbacks, feedbacks) = drain(state, target);
    let ghost start = state@;
    let ghost f = firing(timestamp_ms);
    let mut i: usize = 0;
    proof {
        state::lemma_each_ends(start, callbacks@, f);
    }
    while i < callbacks.len()
        invariant
            state.wf(),
            i <= callbacks@.len(),
            f == firing(timestamp_ms),
            state@ == state::each(start, callbacks@.take(i as int), f),
        decreases callbacks@.len() - i,
    {
        proof {
            state::lemma_each_step(start, callbacks@, f, i as int);
        }
        let (client_id, callback_id): (u32, u32) = callbacks[i];
        wl_callback::send_done(state, client_id, callback_id, timestamp_ms);
        i = i + 1;
    }
    proof {
        state::lemma_each_ends(start, callbacks@, f);
    }
    let ghost start = state@;
    let ghost f = reporting(presented_at);
    let mut i: usize = 0;
    proof {
        state::lemma_each_ends(start, feedbacks@, f);
    }
    while i < feedbacks.len()
        invariant
            state.wf(),
            i <= feedbacks@.len(),
            f == reporting(presented_at),
            state@ == state::each(start, feedbacks@.take(i as int), f),
        decreases feedbacks@.len() - i,
    {
        proof {
            state::lemma_each_step(start, feedbacks@, f, i as int);
        }
        send_feedback(state, feedbacks[i], presented_at);
        i = i + 1;
    }
    proof {
        state::lemma_each_ends(start, feedbacks@, f);
    }
}

/// Have one buffer be given back, unless it is still on a surface.
pub open spec fn releasing() -> spec_fn(State, ClientObjectId) -> State {
    |s: State, key: ClientObjectId| s.release_started(key)
}

/// A buffer that nothing is using any more.
pub open spec fn unused(s: State) -> spec_fn(ClientObjectId) -> bool {
    |key: ClientObjectId| !s.being_read(key) && !s.attached(key)
}

/// Take one buffer off those to be given back.
pub open spec fn forgetting() -> spec_fn(Set<ClientObjectId>, ClientObjectId) -> Set<
    ClientObjectId,
> {
    |keys: Set<ClientObjectId>, key: ClientObjectId| keys.remove(key)
}

/// Tell a client that it has one of its buffers back.
pub open spec fn giving_back() -> spec_fn(State, ClientObjectId) -> State {
    |s: State, key: ClientObjectId| s.release_told(key.0, key.1)
}

impl State {
    /// A buffer is on a surface of its client.
    pub open spec fn attached(self, key: ClientObjectId) -> bool {
        exists|k: ClientObjectId| #[trigger]
            self.surfaces.contains_key(k) && k.0 == key.0 && self.surfaces[k].buffer_id == Some(
                key.1,
            )
    }

    /// The state once a buffer is to be given back, unless it is on a surface.
    pub open spec fn release_started(self, key: ClientObjectId) -> Self {
        if self.attached(key) {
            self
        } else {
            State { releasing_buffers: self.releasing_buffers.insert(key), ..self }
        }
    }

    /// The state once the buffers that commits have replaced are to be given
    /// back.
    pub open spec fn releases_started(self) -> Self {
        state::each(
            State { buffers_pending_release: Seq::empty(), ..self },
            self.buffers_pending_release,
            releasing(),
        )
    }

    /// The buffers that can be given back.
    pub open spec fn releasable(self) -> Seq<ClientObjectId> {
        table::ordered(self.releasing_buffers).filter(unused(self))
    }

    /// The state once clients have every buffer back that nothing is using any
    /// more.
    pub open spec fn releases_finished(self) -> Self {
        let s = State {
            releasing_buffers: state::each(
                self.releasing_buffers,
                self.releasable(),
                forgetting(),
            ),
            ..self
        };
        state::each(s, self.releasable(), giving_back())
    }
}

/// Whether a buffer is on a surface of its client.
fn is_attached(state: &CompositorState, key: ClientObjectId) -> (r: bool)
    requires
        state.wf(),
    ensures
        r == state@.attached(key),
{
    let keys = state.surfaces.keys_of(key.0);
    proof {
        state.surfaces.lemma_listed();
    }
    let ghost all = table::ordered(state@.surfaces.dom());
    let ghost p = table::of_client(key.0);
    let mut i: usize = 0;
    while i < keys.len()
        invariant
            state.wf(),
            i <= keys@.len(),
            all == table::ordered(state@.surfaces.dom()),
            table::lists(all, state@.surfaces.dom()),
            p == table::of_client(key.0),
            keys@ == all.filter(p),
            forall|j: int|
                0 <= j < i ==> state@.surfaces[#[trigger] keys@[j]].buffer_id != Some(key.1),
        decreases keys@.len() - i,
    {
        proof {
            assert(keys@.contains(keys@[i as int]));
            seqs::lemma_filter_contains(all, p, keys@[i as int]);
            assert(state@.surfaces.contains_key(keys@[i as int]));
        }
        if let Some(surface) = state.surfaces.get(keys[i]) {
            if let Some(id) = surface.buffer_id {
                if id == key.1 {
                    return true;
                }
            }
        }
        i = i + 1;
    }
    proof {
        if state@.attached(key) {
            let k = choose|k: ClientObjectId| #[trigger]
                state@.surfaces.contains_key(k) && k.0 == key.0 && state@.surfaces[k].buffer_id
                    == Some(key.1);
            assert(all.contains(k));
            seqs::lemma_filter_contains(all, p, k);
            let j = choose|j: int| 0 <= j < keys@.len() && keys@[j] == k;
            assert(state@.surfaces[keys@[j]].buffer_id != Some(key.1));
        }
    }
    false
}

/// Note buffers a commit replaced as no longer wanted.
///
/// This is not the release itself: a frame still in flight may be reading the
/// buffer, and telling the client it may draw would corrupt what is on screen.
/// Buffers still attached to a surface are skipped, which happens when several
/// commits are batched and a buffer is re-attached after being replaced.
pub fn start_buffer_releases(state: &mut CompositorState)
    requires
        old(state).wf(),
    ensures
        final(state).wf(),
        final(state)@ == old(state)@.releases_started(),
{
    let mut pending: Vec<ClientObjectId> = Vec::new();
    std::mem::swap(&mut pending, &mut state.buffers_pending_release);
    let ghost start = state@;
    let mut i: usize = 0;
    proof {
        state::lemma_each_ends(start, pending@, releasing());
    }
    while i < pending.len()
        invariant
            state.wf(),
            i <= pending@.len(),
            state@ == state::each(start, pending@.take(i as int), releasing()),
        decreases pending@.len() - i,
    {
        proof {
            state::lemma_each_step(start, pending@, releasing(), i as int);
        }
        if !is_attached(state, pending[i]) {
            state.releasing_buffers.insert(pending[i]);
        }
        i = i + 1;
    }
    proof {
        state::lemma_each_ends(start, pending@, releasing());
    }
}

/// The buffers that can be given back.
///
/// A client can re-attach a buffer before hearing it was released. Telling it
/// the buffer is free while it is on screen would invite it to draw over what
/// is being displayed.
fn releasable_buffers(state: &CompositorState) -> (r: Vec<ClientObjectId>)
    requires
        state.wf(),
    ensures
        r@ == state@.releasable(),
{
    let keys = state.releasing_buffers.keys();
    let ghost p = unused(state@);
    let mut r: Vec<ClientObjectId> = Vec::new();
    let mut i: usize = 0;
    proof {
        reveal(Seq::filter);
        assert(keys@.take(0) =~= Seq::empty());
    }
    while i < keys.len()
        invariant
            state.wf(),
            i <= keys@.len(),
            p == unused(state@),
            r@ == keys@.take(i as int).filter(p),
        decreases keys@.len() - i,
    {
        proof {
            seqs::lemma_filter_step(keys@, p, i as int);
        }
        if !state.buffer_is_being_read(keys[i]) && !is_attached(state, keys[i]) {
            r.push(keys[i]);
        }
        i = i + 1;
    }
    assert(keys@.take(i as int) =~= keys@);
    r
}

/// Tell clients about buffers nothing is reading any more.
///
/// Runs every tick, not only the ones that draw: the last reader is usually the
/// previous frame, which is dropped when a later frame replaces it or the
/// backend finishes with it, and neither is tied to this compositor's idea of
/// whether anything changed.
pub fn finish_buffer_releases(state: &mut CompositorState)
    requires
        old(state).wf(),
    ensures
        final(state).wf(),
        final(state)@ == old(state)@.releases_finished(),
{
    let keys = releasable_buffers(state);
    let ghost members = state@.releasing_buffers;
    let mut i: usize = 0;
    proof {
        state::lemma_each_ends(members, keys@, forgetting());
    }
    while i < keys.len()
        invariant
            state.wf(),
            i <= keys@.len(),
            state@ == (State {
                releasing_buffers: state::each(members, keys@.take(i as int), forgetting()),
                ..old(state)@
            }),
        decreases keys@.len() - i,
    {
        proof {
            state::lemma_each_step(members, keys@, forgetting(), i as int);
        }
        state.releasing_buffers.remove(keys[i]);
        i = i + 1;
    }
    proof {
        state::lemma_each_ends(members, keys@, forgetting());
    }
    let ghost start = state@;
    let mut i: usize = 0;
    proof {
        state::lemma_each_ends(start, keys@, giving_back());
    }
    while i < keys.len()
        invariant
            state.wf(),
            i <= keys@.len(),
            state@ == state::each(start, keys@.take(i as int), giving_back()),
        decreases keys@.len() - i,
    {
        proof {
            state::lemma_each_step(start, keys@, giving_back(), i as int);
        }
        let (client_id, buffer_id): (u32, u32) = keys[i];
        wl_buffer::send_release(state, client_id, buffer_id);
        i = i + 1;
    }
    proof {
        state::lemma_each_ends(start, keys@, giving_back());
    }
}

/// A buffer that is to be given back is not while anything is using it: one that
/// is on a surface or being read waits.
pub proof fn law_a_buffer_in_use_is_not_given_back(s: State, key: ClientObjectId)
    requires
        s.releasing_buffers.finite(),
        s.releasing_buffers.contains(key),
    ensures
        s.releases_finished().releasing_buffers.contains(key) <==> s.being_read(key) || s.attached(
            key,
        ),
{
    table::lemma_finite_listed(s.releasing_buffers);
    seqs::lemma_filter_contains(table::ordered(s.releasing_buffers), unused(s), key);
    let given = s.releasable();
    let left = state::each(s.releasing_buffers, given, forgetting());
    lemma_forgotten(s.releasing_buffers, given, key);
    let told = State { releasing_buffers: left, ..s };
    let inv = |a: State| a.releasing_buffers == left;
    assert forall|a: State, k: ClientObjectId| inv(a) implies inv(
        #[trigger] giving_back()(a, k),
    ) by {}
    state::lemma_each_keeps(told, given, giving_back(), inv);
}

proof fn lemma_forgotten(keys: Set<ClientObjectId>, given: Seq<ClientObjectId>, key: ClientObjectId)
    ensures
        state::each(keys, given, forgetting()).contains(key) == (keys.contains(key)
            && !given.contains(key)),
    decreases given.len(),
{
    if given.len() > 0 {
        let rest = given.drop_last();
        lemma_forgotten(keys, rest, key);
        if rest.contains(key) {
            let n = choose|n: int| 0 <= n < rest.len() && rest[n] == key;
            assert(given[n] == key);
        }
        if given.contains(key) && key != given.last() {
            let n = choose|n: int| 0 <= n < given.len() && given[n] == key;
            assert(rest[n] == key);
        }
        assert(given[given.len() - 1] == given.last());
    }
}

/// What some surfaces have come to once the first of them have been asked what
/// they were waiting for.
proof fn lemma_drained_some(
    s: State,
    w: Awaited,
    keys: Seq<ClientObjectId>,
    target: FrameTarget,
    key: ClientObjectId,
)
    requires
        table::increasing(keys),
    ensures
        ({
            let (a, _) = state::each((s, w), keys, draining(target));
            &&& s.surfaces.contains_key(key) ==> a.surfaces.contains_key(key)
            &&& !keys.contains(key) ==> a.surfaces[key] == s.surfaces[key]
            &&& keys.contains(key) && !covers(target, s.surfaces[key]) ==> a.surfaces[key]
                == s.surfaces[key]
            &&& keys.contains(key) && covers(target, s.surfaces[key]) ==> a.surfaces[key] == (
            SurfaceView {
                frame_callback: None,
                presentation_feedbacks: Seq::empty(),
                ..s.surfaces[key]
            })
        }),
    decreases keys.len(),
{
    if keys.len() > 0 {
        let rest = keys.drop_last();
        let last = keys.last();
        table::lemma_increasing_front(keys);
        table::lemma_increasing_apart(keys, keys.len() - 1);
        lemma_drained_some(s, w, rest, target, key);
        lemma_drained_some(s, w, rest, target, last);
        if rest.contains(key) {
            let n = choose|n: int| 0 <= n < rest.len() && rest[n] == key;
            assert(keys[n] == key);
        }
        if rest.contains(last) {
            let n = choose|n: int| 0 <= n < rest.len() && rest[n] == last;
            assert(keys[n] == last);
        }
        if keys.contains(key) && key != last {
            let n = choose|n: int| 0 <= n < keys.len() && keys[n] == key;
            assert(rest[n] == key);
        }
        assert(keys[keys.len() - 1] == last);
    }
}

/// A surface is told once of a frame it asked to be told of: a presentation that
/// settles it leaves it waiting for nothing, and one that does not leaves it
/// waiting.
pub proof fn law_a_frame_is_told_of_once(
    s: State,
    timestamp_ms: u32,
    target: FrameTarget,
    at: Option<PresentedAt>,
    key: ClientObjectId,
)
    requires
        s.surfaces.dom().finite(),
        s.surfaces.contains_key(key),
    ensures
        covers(target, s.surfaces[key]) ==> s.frames_fired(
            timestamp_ms,
            target,
            at,
        ).surfaces[key] == (SurfaceView {
            frame_callback: None,
            presentation_feedbacks: Seq::empty(),
            ..s.surfaces[key]
        }),
        !covers(target, s.surfaces[key]) ==> s.frames_fired(timestamp_ms, target, at).surfaces[key]
            == s.surfaces[key],
{
    let keys = table::ordered(s.surfaces.dom());
    table::lemma_finite_listed(s.surfaces.dom());
    let none = Awaited { callbacks: Seq::empty(), feedbacks: Seq::empty() };
    lemma_drained_some(s, none, keys, target, key);
    let (drained, w) = s.drained(target);
    let inv = |a: State| a.surfaces == drained.surfaces;
    assert forall|a: State, k: ClientObjectId| inv(a) implies inv(
        #[trigger] firing(timestamp_ms)(a, k),
    ) by {}
    assert forall|a: State, k: ClientObjectId| inv(a) implies inv(
        #[trigger] reporting(at)(a, k),
    ) by {}
    state::lemma_each_keeps(drained, w.callbacks, firing(timestamp_ms), inv);
    let fired = state::each(drained, w.callbacks, firing(timestamp_ms));
    state::lemma_each_keeps(fired, w.feedbacks, reporting(at), inv);
}

} // verus!

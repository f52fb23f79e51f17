//! When to compose a scene, and for which output.

use crate::buffers;
use crate::scene::{self, CacheView, SceneCache};
use crate::seqs;
use crate::shared::{OutputId, Scene, SceneView};
use crate::state::{self, CompositorState, State};
use crate::table::{self, KeySet, Table};
use crate::windows::{self, find_output};
use vstd::prelude::*;

verus! {

/// Which outputs are owed a scene, and what each was last given.
///
/// A scene is composed for an output when two things are true at once: the
/// backend has said it can show another frame there, and what that output was
/// last given no longer reflects compositor state. Either half can become true
/// at any time - a page flip completing, a client committing - so the decision
/// is made in one place after every pass of the loop rather than in whichever
/// arm happened to settle the second half.
pub struct FramePacer {
    /// The newest scene composed for each output.
    ///
    /// Kept so that every publication can carry all of them. The frame slot
    /// holds one value and a new publication replaces it, so a frame carrying
    /// only the output being served would drop the scene of an output whose
    /// backend had not drawn it yet.
    pub published: Table<OutputId, Scene>,
    /// Outputs whose published scene is out of date.
    pub stale: KeySet<OutputId>,
    /// Outputs whose backend has asked for a frame and not been given one.
    ///
    /// A request outlives the moment it was made. An output that asks while
    /// nothing has changed is not turned away - it is served as soon as
    /// something does, which is what keeps an idle desktop from waiting a
    /// whole refresh period to show the first thing that moves.
    pub waiting: KeySet<OutputId>,
    /// Source of scene serials. Rises, so a backend comparing a scene against
    /// what it last drew on that output cannot be fooled by reuse.
    pub next_serial: u64,
    /// Textures kept between scenes.
    pub cache: SceneCache,
}

/// Which outputs are owed a scene, as maps and sets.
#[verifier::ext_equal]
pub struct PacerView {
    pub published: Map<OutputId, SceneView>,
    pub stale: Set<OutputId>,
    pub waiting: Set<OutputId>,
    pub next_serial: u64,
    pub cache: CacheView,
}

impl View for FramePacer {
    type V = PacerView;

    open spec fn view(&self) -> PacerView {
        PacerView {
            published: self.published@,
            stale: self.stale@,
            waiting: self.waiting@,
            next_serial: self.next_serial,
            cache: self.cache@,
        }
    }
}

/// What some scenes are.
pub open spec fn scenes_view(scenes: Seq<Scene>) -> Seq<SceneView> {
    scenes.map_values(|s: Scene| s@)
}

/// What a publication consists of.
pub struct Publication {
    /// The newest scene of every output
    pub frame: Vec<Scene>,
    /// The scenes that have been replaced, to be released once the backend has
    /// done with them
    pub replaced: Vec<Scene>,
}

/// The pacer, the state and the scenes replaced, while outputs are served.
#[verifier::ext_equal]
pub struct Serving {
    pub pacer: PacerView,
    pub state: State,
    pub replaced: Seq<SceneView>,
}

/// Compose for one output.
pub open spec fn serving() -> spec_fn(Serving, OutputId) -> Serving {
    |a: Serving, id: OutputId| a.served(id)
}

/// The outputs there are.
pub open spec fn live(s: State) -> Set<OutputId> {
    Set::new(|id: OutputId| s.output(id) is Some)
}

/// One more output is out of date.
pub open spec fn marking() -> spec_fn(Set<OutputId>, OutputId) -> Set<OutputId> {
    |ids: Set<OutputId>, id: OutputId| ids.insert(id)
}

/// The scene of one output, in turn.
pub open spec fn scene_in(published: Map<OutputId, SceneView>) -> spec_fn(OutputId) -> SceneView {
    |id: OutputId| published[id]
}

/// An output that is gone.
pub open spec fn gone(s: State) -> spec_fn(OutputId) -> bool {
    |id: OutputId| s.output(id) is None
}

impl Serving {
    /// What comes of composing for an output: the scene is what it was last
    /// given, and it is neither waiting nor out of date.
    pub open spec fn served(self, id: OutputId) -> Self {
        let p = self.pacer;
        let d = self.state.composed(id, p.cache);
        Serving {
            pacer: PacerView {
                published: p.published.insert(
                    id,
                    SceneView { output_id: id, serial: p.next_serial, elements: d.elements },
                ),
                stale: p.stale.remove(id),
                waiting: p.waiting.remove(id),
                next_serial: buffers::serial_after(p.next_serial),
                cache: d.cache,
            },
            state: self.state.elements_held(d.elements),
            replaced: if p.published.contains_key(id) {
                self.replaced.push(p.published[id])
            } else {
                self.replaced
            },
        }
    }
}

impl PacerView {
    /// Nothing owed, and nothing given.
    pub open spec fn initial() -> Self {
        PacerView {
            published: Map::empty(),
            stale: Set::empty(),
            waiting: Set::empty(),
            next_serial: 1,
            cache: CacheView::empty(),
        }
    }

    /// Every output's scene is out of date.
    pub open spec fn invalidated(self, s: State) -> Self {
        PacerView {
            stale: state::each(self.stale, windows::output_ids(s.outputs), marking()),
            ..self
        }
    }

    /// An output is ready for another frame.
    pub open spec fn requested(self, id: OutputId) -> Self {
        PacerView { waiting: self.waiting.insert(id), ..self }
    }

    /// Nothing is remembered of outputs that are gone.
    pub open spec fn trimmed(self, s: State) -> Self {
        PacerView {
            published: self.published.restrict(live(s)),
            stale: self.stale.intersect(live(s)),
            waiting: self.waiting.intersect(live(s)),
            ..self
        }
    }

    /// What outputs that are gone were last given.
    pub open spec fn orphaned(self, s: State) -> Seq<SceneView> {
        table::ordered(self.published.dom()).filter(gone(s)).map_values(scene_in(self.published))
    }

    /// The pacer once it knows whether the state has moved on.
    pub open spec fn refreshed(self, s: State) -> Self {
        if s.dirty {
            self.invalidated(s)
        } else {
            self
        }
    }

    /// The outputs that are both waiting and out of date.
    pub open spec fn due(self) -> Seq<OutputId> {
        table::ordered(self.stale.intersect(self.waiting))
    }

    /// Every output's newest scene.
    pub open spec fn frame(self) -> Seq<SceneView> {
        table::ordered(self.published.dom()).map_values(scene_in(self.published))
    }

    /// What comes of publishing.
    pub open spec fn published(self, s: State) -> Serving {
        let p = self.refreshed(s);
        let s = State { dirty: false, ..s };
        if p.due().len() == 0 {
            Serving { pacer: p, state: s, replaced: Seq::empty() }
        } else {
            let a = state::each(
                Serving {
                    pacer: PacerView { cache: p.cache.swept(s), ..p },
                    state: s,
                    replaced: Seq::empty(),
                },
                p.due(),
                serving(),
            );
            Serving { state: a.state.damage_cleared(), ..a }
        }
    }
}

impl FramePacer {
    /// The pacer is in order.
    pub open spec fn wf(&self) -> bool {
        self.published.wf() && self.stale.wf() && self.waiting.wf() && self.cache.wf()
    }

    /// A pacer that owes nothing yet.
    pub fn new() -> (r: Self)
        ensures
            r.wf(),
            r@ == PacerView::initial(),
    {
        let r = FramePacer {
            published: Table::new(),
            stale: KeySet::new(),
            waiting: KeySet::new(),
            next_serial: 1,
            cache: SceneCache::new(),
        };
        assert(r@ =~= PacerView::initial());
        r
    }

    /// Note that compositor state has moved on, so every output's scene is out
    /// of date.
    ///
    /// State is tracked as one flag rather than per output because almost
    /// everything that changes it - a commit, a focus change, the pointer
    /// moving - could affect any output, and working out which ones it really
    /// touched costs more than composing a scene nobody was waiting for.
    pub fn invalidate(&mut self, state: &CompositorState)
        requires
            old(self).wf(),
            state.wf(),
        ensures
            final(self).wf(),
            final(self)@ == old(self)@.invalidated(state@),
    {
        let ghost ids = windows::output_ids(state@.outputs);
        let ghost before = self.stale@;
        let mut i: usize = 0;
        proof {
            state::lemma_each_ends(before, ids, marking());
        }
        while i < state.outputs.len()
            invariant
                self.wf(),
                i <= state.outputs@.len(),
                ids == windows::output_ids(state@.outputs),
                self@ == (PacerView {
                    stale: state::each(before, ids.take(i as int), marking()),
                    ..old(self)@
                }),
            decreases state.outputs@.len() - i,
        {
            proof {
                state::lemma_each_step(before, ids, marking(), i as int);
                assert(state@.outputs[i as int] == state.outputs@[i as int]@);
                assert(ids[i as int] == state.outputs@[i as int].id);
            }
            self.stale.insert(state.outputs[i].id);
            i = i + 1;
        }
        proof {
            assert(ids.len() == state.outputs@.len());
            state::lemma_each_ends(before, ids, marking());
        }
    }

    /// Record that a backend is ready for another frame on this output.
    pub fn request(&mut self, output_id: OutputId)
        requires
            old(self).wf(),
        ensures
            final(self).wf(),
            final(self)@ == old(self)@.requested(output_id),
    {
        self.waiting.insert(output_id);
    }

    /// Drop everything remembered about outputs that no longer exist. Gives the
    /// scenes they were last given, to be released once the backend has done
    /// with them.
    pub fn forget_gone_outputs(&mut self, state: &CompositorState) -> (r: Vec<Scene>)
        requires
            old(self).wf(),
            state.wf(),
        ensures
            final(self).wf(),
            final(self)@ == old(self)@.trimmed(state@),
            scenes_view(r@) == old(self)@.orphaned(state@),
    {
        keep_live(&mut self.stale, state);
        keep_live(&mut self.waiting, state);
        take_gone(&mut self.published, state)
    }

    /// The outputs that are both waiting and out of date.
    fn due(&self) -> (r: Vec<OutputId>)
        requires
            self.wf(),
        ensures
            r@ == self@.due(),
    {
        let stale = self.stale.keys();
        let mut both: KeySet<OutputId> = KeySet::new();
        let mut i: usize = 0;
        while i < stale.len()
            invariant
                self.wf(),
                both.wf(),
                i <= stale@.len(),
                table::lists(stale@, self@.stale),
                forall|id: OutputId| #[trigger]
                    both@.contains(id) ==> self@.stale.contains(id) && self@.waiting.contains(id),
                forall|j: int|
                    0 <= j < i && self@.waiting.contains(#[trigger] stale@[j]) ==> both@.contains(
                        stale@[j],
                    ),
            decreases stale@.len() - i,
        {
            assert(stale@.contains(stale@[i as int]));
            if self.waiting.contains(stale[i]) {
                both.insert(stale[i]);
            }
            i = i + 1;
        }
        proof {
            assert forall|id: OutputId|
                self@.stale.contains(id) && self@.waiting.contains(
                    id,
                ) implies #[trigger] both@.contains(id) by {
                assert(stale@.contains(id));
                let j = choose|j: int| 0 <= j < stale@.len() && stale@[j] == id;
                assert(stale@[j] == id);
            }
            assert(both@ =~= self@.stale.intersect(self@.waiting));
        }
        both.keys()
    }

    /// Compose for an output that is due. Gives the scene it was last given, if
    /// it was given one.
    fn serve(&mut self, state: &mut CompositorState, output_id: OutputId) -> (r: Option<Scene>)
        requires
            old(self).wf(),
            old(state).wf(),
        ensures
            final(self).wf(),
            final(state).wf(),
            ({
                let a = (Serving {
                    pacer: old(self)@,
                    state: old(state)@,
                    replaced: Seq::empty(),
                }).served(output_id);
                &&& final(self)@ == a.pacer
                &&& final(state)@ == a.state
                &&& r is Some == old(self)@.published.contains_key(output_id)
                &&& r matches Some(scene) ==> scene@ == old(self)@.published[output_id]
            }),
    {
        let serial: u64 = self.next_serial;
        self.next_serial = if serial == u64::MAX { serial } else { serial + 1 };
        let scene = scene::build(output_id, serial, state, &mut self.cache);
        let replaced = self.published.remove(output_id);
        self.published.insert(output_id, scene);
        self.stale.remove(output_id);
        self.waiting.remove(output_id);
        assert(self@.published =~= old(self)@.published.insert(output_id, scene@));
        replaced
    }

    /// Every output's newest scene.
    fn frame(&self) -> (r: Vec<Scene>)
        requires
            self.wf(),
        ensures
            scenes_view(r@) == self@.frame(),
    {
        let ids = self.published.keys();
        let mut r: Vec<Scene> = Vec::new();
        let mut i: usize = 0;
        while i < ids.len()
            invariant
                self.wf(),
                i <= ids@.len(),
                table::lists(ids@, self@.published.dom()),
                r@.len() == i,
                forall|j: int| 0 <= j < i ==> (#[trigger] r@[j])@ == self@.published[ids@[j]],
            decreases ids@.len() - i,
        {
            assert(ids@.contains(ids@[i as int]));
            match self.published.get(ids[i]) {
                Some(scene) => r.push(scene.again()),
                None => {},
            }
            i = i + 1;
        }
        assert(scenes_view(r@) =~= self@.frame());
        r
    }

    /// Compose for every output that is both waiting and out of date, and
    /// publish the result, if there is any such output.
    ///
    /// Never waits, in line with the rule that the compositor blocks on
    /// nothing: the slot holds one frame and a backend that has not kept up
    /// gets the newest.
    pub fn publish(&mut self, state: &mut CompositorState) -> (r: Option<Publication>)
        requires
            old(self).wf(),
            old(state).wf(),
        ensures
            final(self).wf(),
            final(state).wf(),
            final(self)@ == old(self)@.published(old(state)@).pacer,
            final(state)@ == old(self)@.published(old(state)@).state,
            r is Some == (old(self)@.refreshed(old(state)@).due().len() > 0),
            r matches Some(p) ==> {
                &&& scenes_view(p.frame@) == final(self)@.frame()
                &&& scenes_view(p.replaced@) == old(self)@.published(old(state)@).replaced
            },
    {
        if state.dirty {
            self.invalidate(state);
            state.dirty = false;
        }
        let due = self.due();
        if due.len() == 0 {
            return None;
        }
        self.cache.gc(state);
        let mut replaced: Vec<Scene> = Vec::new();
        let ghost start = Serving { pacer: self@, state: state@, replaced: Seq::empty() };
        let mut i: usize = 0;
        proof {
            state::lemma_each_ends(start, due@, serving());
            assert(scenes_view(replaced@) =~= Seq::empty());
        }
        while i < due.len()
            invariant
                self.wf(),
                state.wf(),
                i <= due@.len(),
                (Serving { pacer: self@, state: state@, replaced: scenes_view(replaced@) })
                    == state::each(start, due@.take(i as int), serving()),
            decreases due@.len() - i,
        {
            proof {
                state::lemma_each_step(start, due@, serving(), i as int);
            }
            let ghost before = replaced@;
            if let Some(scene) = self.serve(state, due[i]) {
                replaced.push(scene);
                assert(scenes_view(replaced@) =~= scenes_view(before).push(scene@));
            }
            i = i + 1;
        }
        proof {
            state::lemma_each_ends(start, due@, serving());
        }
        // Every output draws through one backend and one texture cache, keyed
        // by the buffer's content serial, so a buffer another output has not
        // been composed with yet is either already uploaded or absent - and an
        // absent texture is uploaded whole rather than patched. Carrying the
        // damage forward for that output would therefore change nothing, while
        // an output that stopped asking for frames would grow the list without
        // bound.
        state.clear_buffer_damage();
        Some(Publication { frame: self.frame(), replaced })
    }
}

/// Keep only outputs that exist.
fn keep_live(ids: &mut KeySet<OutputId>, state: &CompositorState)
    requires
        old(ids).wf(),
        state.wf(),
    ensures
        final(ids).wf(),
        final(ids)@ == old(ids)@.intersect(live(state@)),
{
    let keys = ids.keys();
    let ghost before = ids@;
    let mut i: usize = 0;
    while i < keys.len()
        invariant
            ids.wf(),
            state.wf(),
            i <= keys@.len(),
            table::lists(keys@, before),
            forall|id: OutputId| #[trigger] ids@.contains(id) ==> before.contains(id),
            forall|id: OutputId| #[trigger]
                before.contains(id) && live(state@).contains(id) ==> ids@.contains(id),
            forall|j: int|
                0 <= j < i && !live(state@).contains(#[trigger] keys@[j]) ==> !ids@.contains(
                    keys@[j],
                ),
        decreases keys@.len() - i,
    {
        if find_output(&state.outputs, keys[i]).is_none() {
            ids.remove(keys[i]);
        }
        i = i + 1;
    }
    proof {
        assert forall|id: OutputId| #[trigger] ids@.contains(id) implies live(state@).contains(
            id,
        ) by {
            assert(keys@.contains(id));
            let j = choose|j: int| 0 <= j < keys@.len() && keys@[j] == id;
            assert(keys@[j] == id);
        }
        assert(ids@ =~= before.intersect(live(state@)));
    }
}

/// Take out the scenes of outputs that no longer exist.
fn take_gone(published: &mut Table<OutputId, Scene>, state: &CompositorState) -> (r: Vec<Scene>)
    requires
        old(published).wf(),
        state.wf(),
    ensures
        final(published).wf(),
        final(published)@ == old(published)@.restrict(live(state@)),
        scenes_view(r@) == table::ordered(old(published)@.dom()).filter(
            gone(state@),
        ).map_values(scene_in(old(published)@)),
{
    let keys = published.keys();
    let ghost before = published@;
    let ghost p = gone(state@);
    let mut r: Vec<Scene> = Vec::new();
    let mut i: usize = 0;
    proof {
        reveal(Seq::filter);
        assert(keys@.take(0) =~= Seq::empty());
        assert(scenes_view(r@) =~= keys@.take(0).filter(p).map_values(scene_in(before)));
        assert forall|j: int| 0 <= j < keys@.len() implies published@.contains_key(
            #[trigger] keys@[j],
        ) by {
            assert(keys@.contains(keys@[j]));
        }
    }
    while i < keys.len()
        invariant
            published.wf(),
            state.wf(),
            i <= keys@.len(),
            p == gone(state@),
            table::lists(keys@, before.dom()),
            forall|id: OutputId| #[trigger]
                published@.contains_key(id) ==> before.contains_key(id) && published@[id]
                    == before[id],
            forall|id: OutputId| #[trigger]
                before.contains_key(id) && live(state@).contains(id) ==> published@.contains_key(
                    id,
                ),
            forall|j: int|
                0 <= j < i && !live(state@).contains(#[trigger] keys@[j])
                    ==> !published@.contains_key(keys@[j]),
            forall|j: int|
                i <= j < keys@.len() ==> published@.contains_key(#[trigger] keys@[j]),
            scenes_view(r@) == keys@.take(i as int).filter(p).map_values(scene_in(before)),
        decreases keys@.len() - i,
    {
        proof {
            seqs::lemma_filter_step(keys@, p, i as int);
            assert(published@.contains_key(keys@[i as int]));
            table::lemma_increasing_apart(keys@, i as int);
        }
        let ghost shown = scenes_view(r@);
        if find_output(&state.outputs, keys[i]).is_none() {
            if let Some(scene) = published.remove(keys[i]) {
                r.push(scene);
                assert(scenes_view(r@) =~= shown.push(scene@));
            }
        }
        assert(scenes_view(r@) =~= keys@.take(i as int + 1).filter(p).map_values(scene_in(before)));
        i = i + 1;
    }
    proof {
        assert(keys@.take(i as int) =~= keys@);
        assert forall|id: OutputId| #[trigger] published@.contains_key(id) implies live(
            state@,
        ).contains(id) by {
            assert(keys@.contains(id));
            let j = choose|j: int| 0 <= j < keys@.len() && keys@[j] == id;
            assert(keys@[j] == id);
        }
        assert(published@ =~= before.restrict(live(state@)));
    }
    r
}

/// Serving some outputs in turn gives each of them a scene of its own and
/// touches nothing that is remembered of any other.
proof fn lemma_served_each(a: Serving, ids: Seq<OutputId>)
    requires
        table::increasing(ids),
        a.pacer.next_serial + ids.len() < u64::MAX,
    ensures
        ({
            let r = state::each(a, ids, serving());
            &&& r.pacer.next_serial == a.pacer.next_serial + ids.len()
            &&& forall|id: OutputId|
                !ids.contains(id) ==> {
                    &&& #[trigger] r.pacer.published.contains_key(id)
                        == a.pacer.published.contains_key(id)
                    &&& r.pacer.published[id] == a.pacer.published[id]
                    &&& r.pacer.waiting.contains(id) == a.pacer.waiting.contains(id)
                    &&& r.pacer.stale.contains(id) == a.pacer.stale.contains(id)
                }
            &&& forall|i: int|
                0 <= i < ids.len() ==> {
                    &&& r.pacer.published.contains_key(#[trigger] ids[i])
                    &&& r.pacer.published[ids[i]].output_id == ids[i]
                    &&& r.pacer.published[ids[i]].serial == a.pacer.next_serial + i
                    &&& !r.pacer.waiting.contains(ids[i])
                    &&& !r.pacer.stale.contains(ids[i])
                }
        }),
    decreases ids.len(),
{
    if ids.len() > 0 {
        let rest = ids.drop_last();
        let last = ids.last();
        table::lemma_increasing_front(ids);
        lemma_served_each(a, rest);
        table::lemma_increasing_apart(ids, ids.len() - 1);
        let before = state::each(a, rest, serving());
        let r = state::each(a, ids, serving());
        assert(r == before.served(last));
        assert(!rest.contains(last)) by {
            if rest.contains(last) {
                let n = choose|n: int| 0 <= n < rest.len() && rest[n] == last;
                assert(ids[n] == last);
            }
        }
        assert forall|id: OutputId| !ids.contains(id) implies {
            &&& #[trigger] r.pacer.published.contains_key(id) == a.pacer.published.contains_key(id)
            &&& r.pacer.published[id] == a.pacer.published[id]
            &&& r.pacer.waiting.contains(id) == a.pacer.waiting.contains(id)
            &&& r.pacer.stale.contains(id) == a.pacer.stale.contains(id)
        } by {
            assert(ids[ids.len() - 1] == last);
            assert(id != last);
            if rest.contains(id) {
                let n = choose|n: int| 0 <= n < rest.len() && rest[n] == id;
                assert(ids[n] == id);
            }
            assert(before.pacer.published.contains_key(id) == a.pacer.published.contains_key(id));
        }
        assert forall|i: int| 0 <= i < ids.len() implies {
            &&& r.pacer.published.contains_key(#[trigger] ids[i])
            &&& r.pacer.published[ids[i]].output_id == ids[i]
            &&& r.pacer.published[ids[i]].serial == a.pacer.next_serial + i
            &&& !r.pacer.waiting.contains(ids[i])
            &&& !r.pacer.stale.contains(ids[i])
        } by {
            if i < rest.len() {
                assert(rest[i] == ids[i]);
                assert(ids[i] != last);
            }
        }
    }
}

/// The outputs that are due are the ones that are both waiting and out of date,
/// each once.
proof fn lemma_due(p: PacerView, id: OutputId)
    requires
        p.stale.finite(),
    ensures
        table::increasing(p.due()),
        p.due().contains(id) == (p.stale.contains(id) && p.waiting.contains(id)),
{
    table::lemma_finite_listed(p.stale.intersect(p.waiting));
}

/// Marking outputs out of date marks those and no others, and leaves finitely
/// many marked.
proof fn lemma_marked(stale: Set<OutputId>, ids: Seq<OutputId>, id: OutputId)
    requires
        stale.finite(),
    ensures
        state::each(stale, ids, marking()).finite(),
        state::each(stale, ids, marking()).contains(id) == (stale.contains(id) || ids.contains(id)),
    decreases ids.len(),
{
    if ids.len() > 0 {
        lemma_marked(stale, ids.drop_last(), id);
        if ids.drop_last().contains(id) {
            let n = choose|n: int| 0 <= n < ids.drop_last().len() && ids.drop_last()[n] == id;
            assert(ids[n] == id);
        }
        if ids.contains(id) && id != ids.last() {
            let n = choose|n: int| 0 <= n < ids.len() && ids[n] == id;
            assert(ids.drop_last()[n] == id);
        }
        assert(ids[ids.len() - 1] == ids.last());
    }
}

/// An output is composed only once it has asked: one that is not waiting, or
/// whose scene is up to date, keeps the scene it has, and its place in the
/// queue if it is in it.
pub proof fn law_only_outputs_that_asked_are_composed(p: PacerView, s: State, id: OutputId)
    requires
        p.stale.finite(),
        p.next_serial + p.refreshed(s).due().len() < u64::MAX,
        !p.waiting.contains(id) || !p.refreshed(s).stale.contains(id),
    ensures
        p.published(s).pacer.published.contains_key(id) == p.published.contains_key(id),
        p.published.contains_key(id) ==> p.published(s).pacer.published[id] == p.published[id],
        p.published(s).pacer.waiting.contains(id) == p.waiting.contains(id),
{
    let r = p.refreshed(s);
    let clean = State { dirty: false, ..s };
    lemma_marked(p.stale, windows::output_ids(s.outputs), id);
    lemma_due(r, id);
    lemma_served_each(
        Serving {
            pacer: PacerView { cache: r.cache.swept(clean), ..r },
            state: clean,
            replaced: Seq::empty(),
        },
        r.due(),
    );
    assert(p.published(s).pacer.published.contains_key(id) == p.published.contains_key(id));
}

/// A request outlives the moment it was made: an output that is waiting is
/// composed as soon as something has changed, and is then waiting no more. The
/// scene it gets has a serial no scene had before.
pub proof fn law_a_standing_request_is_served(p: PacerView, s: State, id: OutputId)
    requires
        p.stale.finite(),
        p.next_serial + p.refreshed(s).due().len() < u64::MAX,
        p.waiting.contains(id),
        s.dirty,
        windows::output_ids(s.outputs).contains(id),
    ensures
        p.published(s).pacer.published.contains_key(id),
        p.published(s).pacer.published[id].output_id == id,
        p.published(s).pacer.published[id].serial >= p.next_serial,
        p.published(s).pacer.next_serial > p.published(s).pacer.published[id].serial,
        !p.published(s).pacer.waiting.contains(id),
        !p.published(s).pacer.stale.contains(id),
{
    let r = p.refreshed(s);
    let clean = State { dirty: false, ..s };
    lemma_marked(p.stale, windows::output_ids(s.outputs), id);
    lemma_due(r, id);
    let n = choose|n: int| 0 <= n < r.due().len() && r.due()[n] == id;
    lemma_served_each(
        Serving {
            pacer: PacerView { cache: r.cache.swept(clean), ..r },
            state: clean,
            replaced: Seq::empty(),
        },
        r.due(),
    );
    assert(r.due()[n] == id);
}

/// Nothing is remembered of an output that has gone away, and everything of
/// those that have not.
pub proof fn law_outputs_that_go_away_are_forgotten(p: PacerView, s: State, id: OutputId)
    ensures
        s.output(id) is None ==> !p.trimmed(s).published.contains_key(id) && !p.trimmed(
            s,
        ).waiting.contains(id) && !p.trimmed(s).stale.contains(id),
        s.output(id) is Some ==> p.trimmed(s).published.contains_key(id)
            == p.published.contains_key(id) && p.trimmed(s).waiting.contains(id)
            == p.waiting.contains(id),
{
}

} // verus!

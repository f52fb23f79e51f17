//! Telling clients which outputs their surfaces are on, and only what they do
//! not know yet.

use crate::frames;
use crate::objects::{self, SurfaceView};
use crate::seqs;
use crate::shared::{OutputId, OutputView};
use crate::state::{self, State};
use crate::table;
use crate::tree;
use crate::windows;
use crate::workspace::ClientObjectId;
use vstd::prelude::*;

verus! {

/// Two surfaces differ at most in which outputs they are on and are known to be
/// on.
pub open spec fn alike(a: SurfaceView, b: SurfaceView) -> bool {
    a == SurfaceView { entered_outputs: a.entered_outputs, visible_on: a.visible_on, ..b }
}

impl State {
    /// A state differs from another at most in what clients have been sent and
    /// in which outputs surfaces are on and are known to be on.
    pub open spec fn sighted_since(self, before: State) -> bool {
        &&& self == State { clients: self.clients, surfaces: self.surfaces, ..before }
        &&& self.surfaces.dom() == before.surfaces.dom()
        &&& forall|k: ClientObjectId|
            before.surfaces.contains_key(k) ==> alike(
                #[trigger] self.surfaces[k],
                before.surfaces[k],
            )
    }

    /// A client knows that a surface is on an output.
    pub open spec fn known_on(self, key: ClientObjectId, id: OutputId) -> bool {
        self.surfaces[key].entered_outputs.contains(id)
    }

    /// A client has an object for an output.
    pub open spec fn can_name(self, client_id: u32, id: OutputId) -> bool {
        self.output_objects(client_id, id).len() > 0
    }

    /// No two outputs have the same id.
    pub open spec fn outputs_differ(self) -> bool {
        forall|i: int, j: int|
            0 <= i < self.outputs.len() && 0 <= j < self.outputs.len() && (
            #[trigger] self.outputs[i]).id == (#[trigger] self.outputs[j]).id ==> i == j
    }
}

/// Where a surface is does not depend on what clients know.
proof fn lemma_placed_alike(
    a: State,
    b: State,
    key: ClientObjectId,
    x: i32,
    y: i32,
    steps: nat,
)
    requires
        a.sighted_since(b),
    ensures
        tree::placed_from(a.surfaces, key, x, y, steps) == tree::placed_from(
            b.surfaces,
            key,
            x,
            y,
            steps,
        ),
    decreases steps,
{
    assert(a.surfaces.contains_key(key) == a.surfaces.dom().contains(key));
    assert(b.surfaces.contains_key(key) == b.surfaces.dom().contains(key));
    if b.surfaces.contains_key(key) {
        assert(alike(a.surfaces[key], b.surfaces[key]));
        let s = b.surfaces[key];
        match s.parent {
            Some(parent) => if steps > 0 {
                lemma_placed_alike(
                    a,
                    b,
                    (key.0, parent),
                    objects::saturated(x + s.subsurface_position.0),
                    objects::saturated(y + s.subsurface_position.1),
                    (steps - 1) as nat,
                );
            },
            None => {},
        }
    }
}

/// Which outputs a surface is on does not depend on what clients know.
proof fn lemma_seen_alike(a: State, b: State, key: ClientObjectId)
    requires
        a.sighted_since(b),
        b.surfaces.contains_key(key),
    ensures
        a.out_of_sight(key) == b.out_of_sight(key),
        a.global_position(key) == b.global_position(key),
        a.dimensions_of(key) == b.dimensions_of(key),
        a.outputs_showing(key) == b.outputs_showing(key),
{
    assert(alike(a.surfaces[key], b.surfaces[key]));
    assert(tree::surface_links(a.surfaces) =~= tree::surface_links(b.surfaces)) by {
        assert forall|k: ClientObjectId| #[trigger]
            a.surfaces.contains_key(k) == b.surfaces.contains_key(k) by {
            assert(a.surfaces.dom().contains(k) == b.surfaces.dom().contains(k));
        }
        assert forall|k: ClientObjectId| b.surfaces.contains_key(k) implies (
        #[trigger] a.surfaces[k]).parent == b.surfaces[k].parent by {
            assert(alike(a.surfaces[k], b.surfaces[k]));
        }
    }
    lemma_placed_alike(a, b, key, 0, 0, a.surface_count());
    assert(a.surfaces.contains_key(key)) by {
        assert(a.surfaces.dom().contains(key));
    }
    assert(a.buffer_of(key) == b.buffer_of(key));
    assert(a.viewport_of(key) == b.viewport_of(key));
}

/// Each crossing is of one of the surfaces, and onto or off one of the outputs
/// given for it.
proof fn lemma_crossings(
    keys: Seq<ClientObjectId>,
    f: spec_fn(ClientObjectId) -> Seq<OutputId>,
    key: ClientObjectId,
    id: OutputId,
)
    ensures
        frames::crossings(keys, f).contains((key, id)) <==> keys.contains(key) && f(key).contains(
            id,
        ),
    decreases keys.len(),
{
    let all = frames::crossings(keys, f);
    if keys.len() > 0 {
        let rest = keys.drop_last();
        let last = keys.last();
        let before = frames::crossings(rest, f);
        let here = frames::with_surface(last, f(last));
        lemma_crossings(rest, f, key, id);
        assert(all == before + here);
        if all.contains((key, id)) {
            let n = choose|n: int| 0 <= n < all.len() && all[n] == (key, id);
            if n < before.len() {
                assert(before[n] == (key, id));
                assert(before.contains((key, id)));
                let m = choose|m: int| 0 <= m < rest.len() && rest[m] == key;
                assert(keys[m] == key);
            } else {
                assert(here[n - before.len()] == (key, id));
                assert(f(last)[n - before.len()] == id);
                assert(keys[keys.len() - 1] == key);
            }
        }
        if keys.contains(key) && f(key).contains(id) {
            if key == last {
                let ids = f(last);
                let m = choose|m: int| 0 <= m < ids.len() && ids[m] == id;
                assert(here[m] == (key, id));
                assert(all[before.len() + m] == (key, id));
            } else {
                let m = choose|m: int| 0 <= m < keys.len() && keys[m] == key;
                assert(rest[m] == key);
                assert(before.contains((key, id)));
                let n = choose|n: int| 0 <= n < before.len() && before[n] == (key, id);
                assert(all[n] == (key, id));
            }
        }
    }
}

/// Naming an output to a client changes nothing but what it has been sent.
proof fn lemma_named(s: State, key: ClientObjectId, objects: Seq<u32>)
    ensures
        state::each(s, objects, frames::naming_entered(key)) == (State {
            clients: state::each(s, objects, frames::naming_entered(key)).clients,
            ..s
        }),
        state::each(s, objects, frames::naming_left(key)) == (State {
            clients: state::each(s, objects, frames::naming_left(key)).clients,
            ..s
        }),
{
    let inv = |a: State| a == (State { clients: a.clients, ..s });
    assert forall|a: State, object: u32| inv(a) implies inv(
        #[trigger] frames::naming_entered(key)(a, object),
    ) by {}
    assert forall|a: State, object: u32| inv(a) implies inv(
        #[trigger] frames::naming_left(key)(a, object),
    ) by {}
    state::lemma_each_keeps(s, objects, frames::naming_entered(key), inv);
    state::lemma_each_keeps(s, objects, frames::naming_left(key), inv);
}

/// A client that is told of arrivals knows of those it can be told of, besides
/// what it knew.
proof fn lemma_arrived(
    s: State,
    arrived: Seq<(ClientObjectId, OutputId)>,
    key: ClientObjectId,
    id: OutputId,
)
    requires
        s.surfaces.contains_key(key),
    ensures
        ({
            let r = state::each(s, arrived, frames::arriving());
            &&& r.sighted_since(s)
            &&& r.surfaces[key].visible_on == s.surfaces[key].visible_on
            &&& r.known_on(key, id) == (s.known_on(key, id) || (arrived.contains((key, id))
                && s.can_name(key.0, id)))
        }),
    decreases arrived.len(),
{
    if arrived.len() > 0 {
        let rest = arrived.drop_last();
        let (k, o) = arrived.last();
        lemma_arrived(s, rest, key, id);
        let before = state::each(s, rest, frames::arriving());
        let r = state::each(s, arrived, frames::arriving());
        assert(r == before.arrival_told(k, o));
        lemma_named(before, k, before.output_objects(k.0, o));
        assert(before.output_objects(k.0, o) == s.output_objects(k.0, o));
        let entered = before.surfaces[k].entered_outputs;
        assert(entered.push(o).contains(id) == (entered.contains(id) || id == o)) by {
            if entered.contains(id) {
                let n = choose|n: int| 0 <= n < entered.len() && entered[n] == id;
                assert(entered.push(o)[n] == id);
            }
            assert(entered.push(o)[entered.len() as int] == o);
        }
        lemma_last_or_before(arrived, (key, id));
        assert(r.surfaces.dom() =~= s.surfaces.dom());
        assert forall|j: ClientObjectId| s.surfaces.contains_key(j) implies alike(
            #[trigger] r.surfaces[j],
            s.surfaces[j],
        ) by {
            assert(alike(before.surfaces[j], s.surfaces[j]));
        }
    }
}

/// Something is in a sequence if it is its last or comes before.
proof fn lemma_last_or_before<A>(s: Seq<A>, a: A)
    requires
        s.len() > 0,
    ensures
        s.contains(a) == (s.drop_last().contains(a) || s.last() == a),
{
    if s.contains(a) && s.last() != a {
        let n = choose|n: int| 0 <= n < s.len() && s[n] == a;
        assert(s.drop_last()[n] == a);
    }
    if s.drop_last().contains(a) {
        let n = choose|n: int| 0 <= n < s.drop_last().len() && s.drop_last()[n] == a;
        assert(s[n] == a);
    }
    assert(s[s.len() - 1] == s.last());
}

/// A client that is told of departures knows no more of those.
proof fn lemma_departed(
    s: State,
    departed: Seq<(ClientObjectId, OutputId)>,
    key: ClientObjectId,
    id: OutputId,
)
    requires
        s.surfaces.contains_key(key),
    ensures
        ({
            let r = state::each(s, departed, frames::departing());
            &&& r.sighted_since(s)
            &&& r.surfaces[key].visible_on == s.surfaces[key].visible_on
            &&& r.known_on(key, id) == (s.known_on(key, id) && !departed.contains((key, id)))
        }),
    decreases departed.len(),
{
    if departed.len() > 0 {
        let rest = departed.drop_last();
        let (k, o) = departed.last();
        lemma_departed(s, rest, key, id);
        let before = state::each(s, rest, frames::departing());
        let r = state::each(s, departed, frames::departing());
        assert(r == before.departure_told(k, o));
        lemma_named(before, k, before.output_objects(k.0, o));
        let entered = before.surfaces[k].entered_outputs;
        seqs::lemma_filter_contains(entered, frames::other_output(o), id);
        lemma_last_or_before(departed, (key, id));
        assert(r.surfaces.dom() =~= s.surfaces.dom());
        assert forall|j: ClientObjectId| s.surfaces.contains_key(j) implies alike(
            #[trigger] r.surfaces[j],
            s.surfaces[j],
        ) by {
            assert(alike(before.surfaces[j], s.surfaces[j]));
        }
    }
}

/// It is noted of each surface where it is.
proof fn lemma_noted(s: State, s0: State, keys: Seq<ClientObjectId>, key: ClientObjectId)
    requires
        s.surfaces.contains_key(key),
    ensures
        ({
            let r = state::each(s, keys, frames::noting(s0));
            &&& r.sighted_since(s)
            &&& r.surfaces[key].entered_outputs == s.surfaces[key].entered_outputs
            &&& keys.contains(key) ==> r.surfaces[key].visible_on == s0.outputs_showing(key)
        }),
    decreases keys.len(),
{
    if keys.len() > 0 {
        let rest = keys.drop_last();
        lemma_noted(s, s0, rest, key);
        let before = state::each(s, rest, frames::noting(s0));
        let r = state::each(s, keys, frames::noting(s0));
        assert(r == before.visibility_noted(keys.last(), s0.outputs_showing(keys.last())));
        lemma_last_or_before(keys, key);
        assert(r.surfaces.dom() =~= s.surfaces.dom());
        assert forall|j: ClientObjectId| s.surfaces.contains_key(j) implies alike(
            #[trigger] r.surfaces[j],
            s.surfaces[j],
        ) by {
            assert(alike(before.surfaces[j], s.surfaces[j]));
        }
    }
}

/// An output is among the ids of those that pass if it passes.
proof fn lemma_passing_ids(
    outputs: Seq<OutputView>,
    p: spec_fn(OutputView) -> bool,
    id: OutputId,
)
    ensures
        windows::output_ids(outputs.filter(p)).contains(id) <==> exists|i: int|
            0 <= i < outputs.len() && p(#[trigger] outputs[i]) && outputs[i].id == id,
{
    let passing = outputs.filter(p);
    let ids = windows::output_ids(passing);
    seqs::lemma_filter_passes(outputs, p);
    if ids.contains(id) {
        let n = choose|n: int| 0 <= n < ids.len() && ids[n] == id;
        assert(p(passing[n]));
        assert(outputs.contains(passing[n]));
        let i = choose|i: int| 0 <= i < outputs.len() && outputs[i] == passing[n];
        assert(p(outputs[i]) && outputs[i].id == id);
    }
    if exists|i: int| 0 <= i < outputs.len() && p(#[trigger] outputs[i]) && outputs[i].id == id {
        let i = choose|i: int|
            0 <= i < outputs.len() && p(#[trigger] outputs[i]) && outputs[i].id == id;
        seqs::lemma_filter_contains(outputs, p, outputs[i]);
        assert(outputs.contains(outputs[i]));
        let n = choose|n: int| 0 <= n < passing.len() && passing[n] == outputs[i];
        assert(ids[n] == id);
    }
}

/// What a client comes to know of a surface.
proof fn lemma_updated(s: State, key: ClientObjectId, id: OutputId)
    requires
        s.surfaces.dom().finite(),
        s.surfaces.contains_key(key),
    ensures
        s.surface_outputs_updated().sighted_since(s),
        s.surface_outputs_updated().surfaces[key].visible_on == s.outputs_showing(key),
        s.surface_outputs_updated().known_on(key, id) == ((s.known_on(key, id) || (
        s.outputs_reached(key).contains(id) && s.can_name(key.0, id))) && !s.outputs_left(
            key,
        ).contains(id)),
{
    let keys = table::ordered(s.surfaces.dom());
    table::lemma_finite_listed(s.surfaces.dom());
    assert(keys.contains(key));
    let noted = state::each(s, keys, frames::noting(s));
    lemma_noted(s, s, keys, key);
    let arrived = frames::crossings(keys, frames::arrivals(s));
    let departed = frames::crossings(keys, frames::departures(s));
    assert(noted.surfaces.contains_key(key)) by {
        assert(noted.surfaces.dom().contains(key));
    }
    lemma_arrived(noted, arrived, key, id);
    let told = state::each(noted, arrived, frames::arriving());
    assert(told.surfaces.contains_key(key)) by {
        assert(told.surfaces.dom().contains(key));
    }
    lemma_departed(told, departed, key, id);
    lemma_crossings(keys, frames::arrivals(s), key, id);
    lemma_crossings(keys, frames::departures(s), key, id);
    let r = s.surface_outputs_updated();
    assert(noted.output_objects(key.0, id) == s.output_objects(key.0, id));
    assert forall|j: ClientObjectId| s.surfaces.contains_key(j) implies alike(
        #[trigger] r.surfaces[j],
        s.surfaces[j],
    ) by {
        assert(noted.surfaces.dom().contains(j) && told.surfaces.dom().contains(j));
        assert(alike(noted.surfaces[j], s.surfaces[j]));
        assert(alike(told.surfaces[j], noted.surfaces[j]));
        assert(alike(r.surfaces[j], told.surfaces[j]));
    }
}

/// Once clients know which outputs their surfaces are on, they have left no
/// output they are still known to be on, and reached none their clients could
/// be told of.
proof fn lemma_nothing_left_to_tell(s: State, key: ClientObjectId, id: OutputId)
    requires
        s.surfaces.dom().finite(),
        s.outputs_differ(),
        s.surfaces.contains_key(key),
    ensures
        !s.surface_outputs_updated().outputs_left(key).contains(id),
        s.surface_outputs_updated().outputs_reached(key).contains(id)
            ==> !s.surface_outputs_updated().can_name(key.0, id),
{
    let t = s.surface_outputs_updated();
    lemma_updated(s, key, id);
    lemma_seen_alike(t, s, key);
    assert(t.output_objects(key.0, id) == s.output_objects(key.0, id));
    let at = s.global_position(key);
    let size = s.dimensions_of(key);
    let entered = s.surfaces[key].entered_outputs;
    let now = t.surfaces[key].entered_outputs;
    if !s.out_of_sight(key) {
        lemma_passing_ids(s.outputs, frames::newly_showing(at, size, entered), id);
        lemma_passing_ids(s.outputs, frames::no_longer_showing(at, size, entered), id);
        lemma_passing_ids(s.outputs, frames::newly_showing(at, size, now), id);
        lemma_passing_ids(s.outputs, frames::no_longer_showing(at, size, now), id);
        if t.outputs_left(key).contains(id) {
            let i = choose|i: int|
                0 <= i < s.outputs.len() && frames::no_longer_showing(at, size, now)(
                    #[trigger] s.outputs[i],
                ) && s.outputs[i].id == id;
            assert(now.contains(id));
            if entered.contains(id) {
                assert(frames::no_longer_showing(at, size, entered)(s.outputs[i]));
                assert(s.outputs_left(key).contains(id));
            } else {
                assert(s.outputs_reached(key).contains(id));
                let j = choose|j: int|
                    0 <= j < s.outputs.len() && frames::newly_showing(at, size, entered)(
                        #[trigger] s.outputs[j],
                    ) && s.outputs[j].id == id;
                assert(s.outputs[i].id == s.outputs[j].id);
            }
        }
        if t.outputs_reached(key).contains(id) {
            let i = choose|i: int|
                0 <= i < s.outputs.len() && frames::newly_showing(at, size, now)(
                    #[trigger] s.outputs[i],
                ) && s.outputs[i].id == id;
            assert(!now.contains(id));
            if s.outputs_left(key).contains(id) {
                let j = choose|j: int|
                    0 <= j < s.outputs.len() && frames::no_longer_showing(at, size, entered)(
                        #[trigger] s.outputs[j],
                    ) && s.outputs[j].id == id;
                assert(s.outputs[i].id == s.outputs[j].id);
            } else if !entered.contains(id) {
                assert(frames::newly_showing(at, size, entered)(s.outputs[i]));
                assert(s.outputs_reached(key).contains(id));
            }
        }
    }
}

/// Clients are told only of changes: once they know which outputs their surfaces
/// are on, being told again tells them nothing and changes nothing.
pub proof fn law_outputs_are_told_of_once(s: State)
    requires
        s.surfaces.dom().finite(),
        s.outputs_differ(),
    ensures
        s.surface_outputs_updated().surface_outputs_updated() == s.surface_outputs_updated(),
{
    let t = s.surface_outputs_updated();
    let keys = table::ordered(t.surfaces.dom());
    table::lemma_finite_listed(s.surfaces.dom());
    if keys_are_none(s) {
        assert(t == s) by {
            lemma_no_surfaces(s);
        }
        lemma_no_surfaces(s);
    } else {
        let some = choose|k: ClientObjectId| s.surfaces.contains_key(k);
        lemma_updated(s, some, OutputId(0));
        assert(t.surfaces.dom() == s.surfaces.dom());
        lemma_noting_again(s, keys, keys.len() as int);
        assert(keys.take(keys.len() as int) =~= keys);
        let arrived = frames::crossings(keys, frames::arrivals(t));
        let departed = frames::crossings(keys, frames::departures(t));
        if departed.len() > 0 {
            let (k, o) = departed[0];
            assert(departed.contains((k, o)));
            lemma_crossings(keys, frames::departures(t), k, o);
            assert(s.surfaces.dom().contains(k));
            lemma_nothing_left_to_tell(s, k, o);
        }
        assert forall|i: int| 0 <= i < arrived.len() implies !t.can_name(
            (#[trigger] arrived[i]).0.0,
            arrived[i].1,
        ) by {
            let (k, o) = arrived[i];
            assert(arrived.contains((k, o)));
            lemma_crossings(keys, frames::arrivals(t), k, o);
            assert(s.surfaces.dom().contains(k));
            lemma_nothing_left_to_tell(s, k, o);
        }
        lemma_nothing_arrives(t, arrived);
        assert(departed =~= Seq::empty());
    }
}

/// There are no surfaces.
pub open spec fn keys_are_none(s: State) -> bool {
    forall|k: ClientObjectId| !#[trigger] s.surfaces.contains_key(k)
}

proof fn lemma_no_surfaces(s: State)
    requires
        s.surfaces.dom().finite(),
        keys_are_none(s),
    ensures
        s.surface_outputs_updated() == s,
{
    let keys = table::ordered(s.surfaces.dom());
    table::lemma_finite_listed(s.surfaces.dom());
    if keys.len() > 0 {
        assert(keys.contains(keys[0]));
        assert(s.surfaces.contains_key(keys[0]));
    }
}

/// Noting where surfaces are a second time notes nothing new.
proof fn lemma_noting_again(s: State, keys: Seq<ClientObjectId>, n: int)
    requires
        s.surfaces.dom().finite(),
        keys == table::ordered(s.surfaces.dom()),
        0 <= n <= keys.len(),
    ensures
        state::each(
            s.surface_outputs_updated(),
            keys.take(n),
            frames::noting(s.surface_outputs_updated()),
        ) == s.surface_outputs_updated(),
    decreases n,
{
    let t = s.surface_outputs_updated();
    if n > 0 {
        lemma_noting_again(s, keys, n - 1);
        state::lemma_each_step(t, keys, frames::noting(t), n - 1);
        table::lemma_finite_listed(s.surfaces.dom());
        let key = keys[n - 1];
        assert(keys.contains(key));
        assert(s.surfaces.contains_key(key));
        lemma_updated(s, key, OutputId(0));
        lemma_seen_alike(t, s, key);
        assert(t.surfaces.dom().contains(key));
        assert(t.visibility_noted(key, t.outputs_showing(key)).surfaces =~= t.surfaces);
    }
}

/// Nobody is told of an arrival who has no object for the output.
proof fn lemma_nothing_arrives(t: State, arrived: Seq<(ClientObjectId, OutputId)>)
    requires
        forall|i: int|
            0 <= i < arrived.len() ==> !t.can_name((#[trigger] arrived[i]).0.0, arrived[i].1),
    ensures
        state::each(t, arrived, frames::arriving()) == t,
    decreases arrived.len(),
{
    if arrived.len() > 0 {
        let rest = arrived.drop_last();
        assert forall|i: int| 0 <= i < rest.len() implies !t.can_name(
            (#[trigger] rest[i]).0.0,
            rest[i].1,
        ) by {
            assert(rest[i] == arrived[i]);
        }
        lemma_nothing_arrives(t, rest);
        assert(!t.can_name(arrived[arrived.len() - 1].0.0, arrived[arrived.len() - 1].1));
    }
}

} // verus!

//! Fingers on a touchscreen.

use crate::focus::{raise_window, switch_focus};
use crate::hits::hit_test;
use crate::protocol::wl_touch;
use crate::state::{self, CompositorState, State};
use crate::table::{self, KeySet, Table};
use crate::tree::surface_global_position;
use crate::wire::{self, fixed_local, fixed_to_i32};
use crate::workspace::ClientObjectId;
use vstd::prelude::*;

verus! {

/// Tell one touch object that a finger has landed on a surface.
pub open spec fn landing(
    surface: ClientObjectId,
    time_ms: u32,
    id: i32,
    x: i32,
    y: i32,
) -> spec_fn(State, u32) -> State {
    |s: State, touch: u32|
        s.touch_down_told(surface.0, touch, time_ms, surface.1, id, x, y).touch_framed(
            surface.0,
            touch,
        )
}

/// Tell one touch object that a finger has moved.
pub open spec fn sliding(client_id: u32, time_ms: u32, id: i32, x: i32, y: i32) -> spec_fn(
    State,
    u32,
) -> State {
    |s: State, touch: u32|
        s.touch_motion_told(client_id, touch, time_ms, id, x, y).touch_framed(client_id, touch)
}

/// Tell one touch object that a finger has been lifted.
pub open spec fn lifting(client_id: u32, time_ms: u32, id: i32) -> spec_fn(State, u32) -> State {
    |s: State, touch: u32|
        s.touch_up_told(client_id, touch, time_ms, id).touch_framed(client_id, touch)
}

/// Tell one touch object that its touches are void.
pub open spec fn voiding(client_id: u32) -> spec_fn(State, u32) -> State {
    |s: State, touch: u32| s.touch_cancel_told(client_id, touch)
}

/// Tell one client that its touches are void.
pub open spec fn voiding_clients() -> spec_fn(State, u32) -> State {
    |s: State, client_id: u32| s.client_touches_voided(client_id)
}

/// The clients with a finger on one of their surfaces.
pub open spec fn touched_clients(points: Map<i32, ClientObjectId>) -> Set<u32> {
    Set::new(|client_id: u32| touches_client(points, client_id))
}

/// A client has a finger on one of its surfaces.
pub open spec fn touches_client(points: Map<i32, ClientObjectId>, client_id: u32) -> bool {
    exists|id: i32| #[trigger] points.contains_key(id) && points[id].0 == client_id
}

impl State {
    /// The state once a finger has landed somewhere.
    pub open spec fn touch_landed(self, time_ms: u32, id: i32, x: i64, y: i64) -> Self {
        let s = self.dirtied();
        match s.hit(wire::fixed_whole(x as int), wire::fixed_whole(y as int)) {
            Some(h) => {
                let s = s.surface_raised(h.toplevel).focus_switched(h.toplevel);
                let s = State { touch_points: s.touch_points.insert(id, h.surface), ..s };
                state::each(
                    s,
                    s.touches_of(h.surface.0),
                    landing(
                        h.surface,
                        time_ms,
                        id,
                        wire::local(x, h.surface_x),
                        wire::local(y, h.surface_y),
                    ),
                )
            },
            None => s,
        }
    }

    /// The state once a finger has moved.
    pub open spec fn touch_slid(self, time_ms: u32, id: i32, x: i64, y: i64) -> Self {
        let s = self.dirtied();
        if s.touch_points.contains_key(id) {
            let surface = s.touch_points[id];
            let origin = s.global_position(surface);
            state::each(
                s,
                s.touches_of(surface.0),
                sliding(
                    surface.0,
                    time_ms,
                    id,
                    wire::local(x, origin.0),
                    wire::local(y, origin.1),
                ),
            )
        } else {
            s
        }
    }

    /// The state once a finger has been lifted.
    pub open spec fn touch_lifted(self, time_ms: u32, id: i32) -> Self {
        let s = self.dirtied();
        if s.touch_points.contains_key(id) {
            let surface = s.touch_points[id];
            let s = State { touch_points: s.touch_points.remove(id), ..s };
            state::each(s, s.touches_of(surface.0), lifting(surface.0, time_ms, id))
        } else {
            s
        }
    }

    /// The state once a client has been told that its touches are void.
    pub open spec fn client_touches_voided(self, client_id: u32) -> Self {
        state::each(self, self.touches_of(client_id), voiding(client_id))
    }

    /// The state once every touch is void.
    pub open spec fn touches_voided(self) -> Self {
        let s = State { touch_points: Map::empty(), ..self.dirtied() };
        state::each(
            s,
            table::ordered(touched_clients(self.touch_points)),
            voiding_clients(),
        )
    }
}

/// Tell a client's touch objects that a finger has landed.
fn send_landed(
    state: &mut CompositorState,
    surface: ClientObjectId,
    time_ms: u32,
    id: i32,
    x: i32,
    y: i32,
)
    requires
        old(state).wf(),
    ensures
        final(state).wf(),
        final(state)@ == state::each(
            old(state)@,
            old(state)@.touches_of(surface.0),
            landing(surface, time_ms, id, x, y),
        ),
{
    let touches = wl_touch::touches_of(state, surface.0);
    let ghost start = state@;
    let ghost f = landing(surface, time_ms, id, x, y);
    let mut i: usize = 0;
    proof {
        state::lemma_each_ends(start, touches@, f);
    }
    while i < touches.len()
        invariant
            state.wf(),
            i <= touches@.len(),
            f == landing(surface, time_ms, id, x, y),
            state@ == state::each(start, touches@.take(i as int), f),
        decreases touches@.len() - i,
    {
        proof {
            state::lemma_each_step(start, touches@, f, i as int);
        }
        wl_touch::send_down(state, surface.0, touches[i], time_ms, surface.1, id, x, y);
        wl_touch::send_frame(state, surface.0, touches[i]);
        i = i + 1;
    }
    proof {
        state::lemma_each_ends(start, touches@, f);
    }
}

/// A finger has landed. Find what it landed on and tell that client.
///
/// The surface is settled here and remembered for the life of the point, so
/// every later motion and the eventual lift go to the same client however far
/// the finger travels.
pub fn touch_down(state: &mut CompositorState, time_ms: u32, id: i32, x: i64, y: i64)
    requires
        old(state).wf(),
    ensures
        final(state).wf(),
        final(state)@ == old(state)@.touch_landed(time_ms, id, x, y),
{
    state.dirty = true;
    let hit = match hit_test(state, fixed_to_i32(x), fixed_to_i32(y)) {
        Some(hit) => hit,
        None => {
            // Nothing there. The point is not recorded, so its motion and lift
            // are dropped too rather than being delivered to whatever is
            // touched next.
            return ;
        },
    };
    // Touching a window raises and focuses it, the same as clicking one.
    raise_window(state, hit.toplevel);
    switch_focus(state, hit.toplevel);
    state.touch_points.insert(id, hit.surface);
    send_landed(
        state,
        hit.surface,
        time_ms,
        id,
        fixed_local(x, hit.surface_x),
        fixed_local(y, hit.surface_y),
    );
}

/// A finger already down has moved, in the coordinates of the surface it
/// started on - which may be nowhere near where it is now.
pub fn touch_motion(state: &mut CompositorState, time_ms: u32, id: i32, x: i64, y: i64)
    requires
        old(state).wf(),
    ensures
        final(state).wf(),
        final(state)@ == old(state)@.touch_slid(time_ms, id, x, y),
{
    state.dirty = true;
    let surface = match state.touch_points.get(id) {
        Some(surface) => *surface,
        None => {
            return ;
        },
    };
    let origin: (i32, i32) = surface_global_position(state, surface.0, surface.1);
    let (local_x, local_y): (i32, i32) = (fixed_local(x, origin.0), fixed_local(y, origin.1));
    let touches = wl_touch::touches_of(state, surface.0);
    let ghost start = state@;
    let ghost f = sliding(surface.0, time_ms, id, local_x, local_y);
    let mut i: usize = 0;
    proof {
        state::lemma_each_ends(start, touches@, f);
    }
    while i < touches.len()
        invariant
            state.wf(),
            i <= touches@.len(),
            f == sliding(surface.0, time_ms, id, local_x, local_y),
            state@ == state::each(start, touches@.take(i as int), f),
        decreases touches@.len() - i,
    {
        proof {
            state::lemma_each_step(start, touches@, f, i as int);
        }
        wl_touch::send_motion(state, surface.0, touches[i], time_ms, id, local_x, local_y);
        wl_touch::send_frame(state, surface.0, touches[i]);
        i = i + 1;
    }
    proof {
        state::lemma_each_ends(start, touches@, f);
    }
}

/// A finger has been lifted.
pub fn touch_up(state: &mut CompositorState, time_ms: u32, id: i32)
    requires
        old(state).wf(),
    ensures
        final(state).wf(),
        final(state)@ == old(state)@.touch_lifted(time_ms, id),
{
    state.dirty = true;
    let surface = match state.touch_points.remove(id) {
        Some(surface) => surface,
        None => {
            assert(state@.touch_points =~= old(state)@.touch_points);
            return ;
        },
    };
    let touches = wl_touch::touches_of(state, surface.0);
    let ghost start = state@;
    let ghost f = lifting(surface.0, time_ms, id);
    let mut i: usize = 0;
    proof {
        state::lemma_each_ends(start, touches@, f);
    }
    while i < touches.len()
        invariant
            state.wf(),
            i <= touches@.len(),
            f == lifting(surface.0, time_ms, id),
            state@ == state::each(start, touches@.take(i as int), f),
        decreases touches@.len() - i,
    {
        proof {
            state::lemma_each_step(start, touches@, f, i as int);
        }
        wl_touch::send_up(state, surface.0, touches[i], time_ms, id);
        wl_touch::send_frame(state, surface.0, touches[i]);
        i = i + 1;
    }
    proof {
        state::lemma_each_ends(start, touches@, f);
    }
}

/// The clients with a finger on one of their surfaces, each once.
fn clients_touched(points: &Table<i32, ClientObjectId>) -> (r: Vec<u32>)
    requires
        points.wf(),
    ensures
        r@ == table::ordered(touched_clients(points@)),
{
    let ids = points.keys();
    let mut clients: KeySet<u32> = KeySet::new();
    let mut i: usize = 0;
    while i < ids.len()
        invariant
            points.wf(),
            clients.wf(),
            i <= ids@.len(),
            table::lists(ids@, points@.dom()),
            forall|c: u32| #[trigger]
                clients@.contains(c) <==> exists|j: int|
                    0 <= j < i && (#[trigger] points@[ids@[j]]).0 == c,
        decreases ids@.len() - i,
    {
        assert(ids@.contains(ids@[i as int]));
        let ghost before = clients@;
        match points.get(ids[i]) {
            Some(surface) => {
                clients.insert(surface.0);
                proof {
                    assert forall|c: u32| #[trigger] clients@.contains(c) implies exists|j: int|
                        0 <= j < i + 1 && (#[trigger] points@[ids@[j]]).0 == c by {
                        if before.contains(c) {
                            let j = choose|j: int|
                                0 <= j < i && (#[trigger] points@[ids@[j]]).0 == c;
                            assert(points@[ids@[j]].0 == c);
                        } else {
                            assert(points@[ids@[i as int]].0 == c);
                        }
                    }
                }
            },
            None => {},
        }
        i = i + 1;
    }
    proof {
        assert forall|c: u32| clients@.contains(c) == touched_clients(points@).contains(c) by {
            if touches_client(points@, c) {
                let id = choose|id: i32| #[trigger] points@.contains_key(id) && points@[id].0 == c;
                assert(ids@.contains(id));
                let j = choose|j: int| 0 <= j < ids@.len() && ids@[j] == id;
                assert(points@[ids@[j]].0 == c);
            }
            if clients@.contains(c) {
                let j = choose|j: int| 0 <= j < i && (#[trigger] points@[ids@[j]]).0 == c;
                assert(ids@.contains(ids@[j]));
                assert(points@.contains_key(ids@[j]));
            }
        }
        assert(clients@ =~= touched_clients(points@));
    }
    clients.keys()
}

/// Tell a client that its touches are void.
fn send_voided(state: &mut CompositorState, client_id: u32)
    requires
        old(state).wf(),
    ensures
        final(state).wf(),
        final(state)@ == old(state)@.client_touches_voided(client_id),
{
    let touches = wl_touch::touches_of(state, client_id);
    let ghost start = state@;
    let mut i: usize = 0;
    proof {
        state::lemma_each_ends(start, touches@, voiding(client_id));
    }
    while i < touches.len()
        invariant
            state.wf(),
            i <= touches@.len(),
            state@ == state::each(start, touches@.take(i as int), voiding(client_id)),
        decreases touches@.len() - i,
    {
        proof {
            state::lemma_each_step(start, touches@, voiding(client_id), i as int);
        }
        wl_touch::send_cancel(state, client_id, touches[i]);
        i = i + 1;
    }
    proof {
        state::lemma_each_ends(start, touches@, voiding(client_id));
    }
}

/// The touch sequence has been taken over, so every point in it is void.
///
/// Every client holding a point is told, not just the one under the last
/// finger: a two-finger gesture spanning two windows leaves both of them
/// waiting to be told how it ended.
pub fn touch_cancel(state: &mut CompositorState)
    requires
        old(state).wf(),
    ensures
        final(state).wf(),
        final(state)@ == old(state)@.touches_voided(),
{
    state.dirty = true;
    let clients = clients_touched(&state.touch_points);
    state.touch_points = Table::new();
    let ghost start = state@;
    let mut i: usize = 0;
    proof {
        state::lemma_each_ends(start, clients@, voiding_clients());
    }
    while i < clients.len()
        invariant
            state.wf(),
            i <= clients@.len(),
            state@ == state::each(start, clients@.take(i as int), voiding_clients()),
        decreases clients@.len() - i,
    {
        proof {
            state::lemma_each_step(start, clients@, voiding_clients(), i as int);
        }
        send_voided(state, clients[i]);
        i = i + 1;
    }
    proof {
        state::lemma_each_ends(start, clients@, voiding_clients());
    }
}

} // verus!

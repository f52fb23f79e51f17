//! Surfaces hang off one another, and dialogs off their windows: walking up.
//!
//! Parent links never lead round in a circle. That is part of what the
//! compositor's state has to satisfy, and it is what makes walking them end.

use crate::objects::{self, saturating_sum, SurfaceView, XdgToplevelView};
use crate::state::{CompositorState, State};
use crate::table;
use crate::workspace::ClientObjectId;
use vstd::prelude::*;

verus! {

/// What each surface that hangs off another hangs off.
pub open spec fn surface_links(surfaces: Map<ClientObjectId, SurfaceView>) -> Map<
    ClientObjectId,
    ClientObjectId,
> {
    Map::new(
        |k: ClientObjectId| surfaces.contains_key(k) && surfaces[k].parent is Some,
        |k: ClientObjectId| (k.0, surfaces[k].parent.unwrap()),
    )
}

/// What window each dialog belongs to.
pub open spec fn toplevel_links(toplevels: Map<ClientObjectId, XdgToplevelView>) -> Map<
    ClientObjectId,
    ClientObjectId,
> {
    Map::new(
        |k: ClientObjectId| toplevels.contains_key(k) && toplevels[k].parent is Some,
        |k: ClientObjectId| (k.0, toplevels[k].parent.unwrap()),
    )
}

/// Everything stands higher than what it hangs off.
pub open spec fn ranked(
    links: Map<ClientObjectId, ClientObjectId>,
    rank: spec_fn(ClientObjectId) -> nat,
) -> bool {
    forall|k: ClientObjectId| #[trigger] links.contains_key(k) ==> rank(links[k]) < rank(k)
}

/// The links do not lead round in a circle.
pub open spec fn forest(links: Map<ClientObjectId, ClientObjectId>) -> bool {
    exists|rank: spec_fn(ClientObjectId) -> nat| ranked(links, rank)
}

/// Where so many links lead, or as many of them as there are.
pub open spec fn climb(
    links: Map<ClientObjectId, ClientObjectId>,
    key: ClientObjectId,
    steps: nat,
) -> ClientObjectId
    decreases steps,
{
    if steps > 0 && links.contains_key(key) {
        climb(links, links[key], (steps - 1) as nat)
    } else {
        key
    }
}

/// One thing is another, or hangs off it at most so many links up.
pub open spec fn reaches(
    links: Map<ClientObjectId, ClientObjectId>,
    from: ClientObjectId,
    to: ClientObjectId,
    steps: nat,
) -> bool
    decreases steps,
{
    from == to || (steps > 0 && links.contains_key(from) && reaches(
        links,
        links[from],
        to,
        (steps - 1) as nat,
    ))
}

/// One thing is another, or hangs off it however far up.
pub open spec fn hangs_off(
    links: Map<ClientObjectId, ClientObjectId>,
    from: ClientObjectId,
    to: ClientObjectId,
) -> bool {
    exists|steps: nat| #[trigger] reaches(links, from, to, steps)
}

/// Links taken away leave no circle.
pub proof fn lemma_forest_kept(
    before: Map<ClientObjectId, ClientObjectId>,
    after: Map<ClientObjectId, ClientObjectId>,
)
    requires
        forest(before),
        after.submap_of(before),
    ensures
        forest(after),
{
    let rank = choose|rank: spec_fn(ClientObjectId) -> nat| ranked(before, rank);
    assert forall|k: ClientObjectId| #[trigger] after.contains_key(k) implies rank(after[k]) < rank(
        k,
    ) by {
        assert(before.contains_key(k));
    }
    assert(ranked(after, rank));
}

/// Having nothing hang off anything is no circle.
pub proof fn lemma_forest_empty()
    ensures
        forest(Map::<ClientObjectId, ClientObjectId>::empty()),
{
    let rank = |k: ClientObjectId| 0nat;
    assert(ranked(Map::<ClientObjectId, ClientObjectId>::empty(), rank));
}

proof fn lemma_climb_last(
    links: Map<ClientObjectId, ClientObjectId>,
    key: ClientObjectId,
    steps: nat,
)
    requires
        links.contains_key(climb(links, key, steps)),
    ensures
        climb(links, key, steps + 1) == links[climb(links, key, steps)],
    decreases steps,
{
    reveal_with_fuel(climb, 2);
    if steps > 0 && links.contains_key(key) {
        lemma_climb_last(links, links[key], (steps - 1) as nat);
    }
}

/// Where a climb goes on, it went on all along.
proof fn lemma_climb_goes_on(
    links: Map<ClientObjectId, ClientObjectId>,
    key: ClientObjectId,
    steps: nat,
    fewer: nat,
)
    requires
        links.contains_key(climb(links, key, steps)),
        fewer <= steps,
    ensures
        links.contains_key(climb(links, key, fewer)),
    decreases steps,
{
    if fewer > 0 {
        lemma_climb_goes_on(links, links[key], (steps - 1) as nat, (fewer - 1) as nat);
    } else if steps > 0 && !links.contains_key(key) {
        assert(climb(links, key, steps) == key);
    }
}

proof fn lemma_climb_descends(
    links: Map<ClientObjectId, ClientObjectId>,
    rank: spec_fn(ClientObjectId) -> nat,
    key: ClientObjectId,
    steps: nat,
    fewer: nat,
)
    requires
        ranked(links, rank),
        links.contains_key(climb(links, key, steps)),
        fewer < steps,
    ensures
        rank(climb(links, key, steps)) < rank(climb(links, key, fewer)),
    decreases steps,
{
    let last = (steps - 1) as nat;
    lemma_climb_goes_on(links, key, steps, last);
    lemma_climb_last(links, key, last);
    if fewer < last {
        lemma_climb_descends(links, rank, key, last, fewer);
    }
}

/// A climb with as many steps as there are places to stand ends where there is
/// nothing further up.
pub proof fn lemma_climb_ends(
    links: Map<ClientObjectId, ClientObjectId>,
    places: Seq<ClientObjectId>,
    key: ClientObjectId,
)
    requires
        forest(links),
        forall|k: ClientObjectId| #[trigger] links.contains_key(k) ==> places.contains(k),
    ensures
        !links.contains_key(climb(links, key, places.len())),
{
    let rank = choose|rank: spec_fn(ClientObjectId) -> nat| ranked(links, rank);
    let n = places.len();
    if links.contains_key(climb(links, key, n)) {
        let chain = Seq::new(n + 1, |i: int| climb(links, key, i as nat));
        assert forall|i: int, j: int| 0 <= i < j < chain.len() implies chain[i] != chain[j] by {
            lemma_climb_goes_on(links, key, n, j as nat);
            lemma_climb_descends(links, rank, key, j as nat, i as nat);
        }
        assert(chain.no_duplicates());
        assert forall|k: ClientObjectId| #[trigger] chain.to_set().contains(k) implies places.to_set(
        ).contains(k) by {
            assert(chain.contains(k));
            let i = choose|i: int| 0 <= i < chain.len() && chain[i] == k;
            lemma_climb_goes_on(links, key, n, i as nat);
            assert(places.contains(k));
        }
        chain.unique_seq_to_set();
        vstd::seq_lib::seq_to_set_is_finite(places);
        vstd::set_lib::lemma_len_subset(chain.to_set(), places.to_set());
        places.lemma_cardinality_of_set();
        assert(false);
    }
}

/// What is reached in some steps is reached in more.
proof fn lemma_reaches_more(
    links: Map<ClientObjectId, ClientObjectId>,
    from: ClientObjectId,
    to: ClientObjectId,
    steps: nat,
    more: nat,
)
    requires
        reaches(links, from, to, steps),
        steps <= more,
    ensures
        reaches(links, from, to, more),
    decreases steps,
{
    if from != to {
        lemma_reaches_more(links, links[from], to, (steps - 1) as nat, (more - 1) as nat);
    }
}

/// What a climb reaches at all it reaches before it ends.
proof fn lemma_reaches_climb(
    links: Map<ClientObjectId, ClientObjectId>,
    from: ClientObjectId,
    to: ClientObjectId,
    steps: nat,
    enough: nat,
)
    requires
        reaches(links, from, to, steps),
        !links.contains_key(climb(links, from, enough)),
    ensures
        reaches(links, from, to, enough),
    decreases steps,
{
    if from != to {
        if enough == 0 {
            assert(climb(links, from, 0) == from);
        } else {
            lemma_reaches_climb(
                links,
                links[from],
                to,
                (steps - 1) as nat,
                (enough - 1) as nat,
            );
        }
    }
}

/// With as many steps as there are places to stand, everything further up is
/// reached.
pub proof fn lemma_reaches_enough(
    links: Map<ClientObjectId, ClientObjectId>,
    places: Seq<ClientObjectId>,
    from: ClientObjectId,
    to: ClientObjectId,
)
    requires
        forest(links),
        forall|k: ClientObjectId| #[trigger] links.contains_key(k) ==> places.contains(k),
    ensures
        hangs_off(links, from, to) == reaches(links, from, to, places.len()),
{
    if hangs_off(links, from, to) {
        let steps = choose|steps: nat| #[trigger] reaches(links, from, to, steps);
        lemma_climb_ends(links, places, from);
        lemma_reaches_climb(links, from, to, steps, places.len());
    }
}

/// A thing may be hung off another that does not itself hang off it: that
/// closes no circle.
pub proof fn law_linking_closes_no_circle(
    links: Map<ClientObjectId, ClientObjectId>,
    child: ClientObjectId,
    parent: ClientObjectId,
)
    requires
        forest(links),
        !hangs_off(links, parent, child),
    ensures
        forest(links.insert(child, parent)),
{
    let rank = choose|rank: spec_fn(ClientObjectId) -> nat| ranked(links, rank);
    let lifted = |k: ClientObjectId|
        if hangs_off(links, k, child) {
            rank(k) + rank(parent) + 1
        } else {
            rank(k)
        };
    let after = links.insert(child, parent);
    assert forall|k: ClientObjectId| #[trigger] after.contains_key(k) implies lifted(after[k])
        < lifted(k) by {
        if k == child {
            assert(reaches(links, child, child, 0));
        } else {
            assert(links.contains_key(k));
            if hangs_off(links, links[k], child) {
                let steps = choose|steps: nat| #[trigger] reaches(links, links[k], child, steps);
                assert(reaches(links, k, child, steps + 1));
            }
            if hangs_off(links, k, child) {
                let steps = choose|steps: nat| #[trigger] reaches(links, k, child, steps);
                assert(reaches(links, links[k], child, (steps - 1) as nat));
            }
        }
    }
    assert(ranked(after, lifted));
}

/// A thing hung off one that hangs off it is in a circle.
pub proof fn law_circles_are_refused(
    links: Map<ClientObjectId, ClientObjectId>,
    child: ClientObjectId,
    parent: ClientObjectId,
)
    requires
        hangs_off(links, parent, child),
    ensures
        !forest(links.insert(child, parent)),
{
    let after = links.insert(child, parent);
    if forest(after) {
        let rank = choose|rank: spec_fn(ClientObjectId) -> nat| ranked(after, rank);
        let steps = choose|steps: nat| #[trigger] reaches(links, parent, child, steps);
        lemma_reached_is_lower(links, child, parent, rank, parent, steps);
        assert(after.contains_key(child));
        assert(rank(after[child]) < rank(child));
    }
}

proof fn lemma_reached_is_lower(
    links: Map<ClientObjectId, ClientObjectId>,
    child: ClientObjectId,
    parent: ClientObjectId,
    rank: spec_fn(ClientObjectId) -> nat,
    from: ClientObjectId,
    steps: nat,
)
    requires
        ranked(links.insert(child, parent), rank),
        reaches(links, from, child, steps),
    ensures
        rank(child) <= rank(from),
    decreases steps,
{
    if from != child {
        assert(links.insert(child, parent).contains_key(from));
        lemma_reached_is_lower(links, child, parent, rank, links[from], (steps - 1) as nat);
    }
}

/// Where a surface is, given where what hangs off it was found to be relative
/// to it.
pub open spec fn placed_from(
    surfaces: Map<ClientObjectId, SurfaceView>,
    key: ClientObjectId,
    x: i32,
    y: i32,
    steps: nat,
) -> (i32, i32)
    decreases steps,
{
    if surfaces.contains_key(key) {
        let s = surfaces[key];
        let x = objects::saturated(x + s.subsurface_position.0);
        let y = objects::saturated(y + s.subsurface_position.1);
        match s.parent {
            Some(parent) => if steps > 0 {
                placed_from(surfaces, (key.0, parent), x, y, (steps - 1) as nat)
            } else {
                (x, y)
            },
            None => (
                objects::saturated(x + s.position.0),
                objects::saturated(y + s.position.1),
            ),
        }
    } else {
        (x, y)
    }
}

impl State {
    /// How many surfaces there are.
    pub open spec fn surface_count(self) -> nat {
        table::ordered(self.surfaces.dom()).len()
    }

    /// How many windows there are.
    pub open spec fn toplevel_count(self) -> nat {
        table::ordered(self.xdg_toplevels.dom()).len()
    }

    /// The surface everything a surface hangs off hangs off.
    pub open spec fn root_of(self, key: ClientObjectId) -> ClientObjectId {
        climb(surface_links(self.surfaces), key, self.surface_count())
    }

    /// A surface is part of a window the user can see.
    pub open spec fn is_shown(self, key: ClientObjectId) -> bool {
        self.workspaces.is_visible(self.root_of(key))
    }

    /// Where a surface is in the global coordinate space.
    pub open spec fn global_position(self, key: ClientObjectId) -> (i32, i32) {
        placed_from(self.surfaces, key, 0, 0, self.surface_count())
    }

    /// A surface is another, or hangs off it.
    pub open spec fn under_surface(self, from: ClientObjectId, to: ClientObjectId) -> bool {
        reaches(surface_links(self.surfaces), from, to, self.surface_count())
    }

    /// A window is another, or is a dialog of it.
    pub open spec fn under_toplevel(self, from: ClientObjectId, to: ClientObjectId) -> bool {
        reaches(toplevel_links(self.xdg_toplevels), from, to, self.toplevel_count())
    }
}

/// Walk up the parent chain to the surface at the root of the tree.
pub fn root_surface(state: &CompositorState, key: ClientObjectId) -> (r: ClientObjectId)
    requires
        state.wf(),
    ensures
        r == state@.root_of(key),
        state@.surfaces.contains_key(r) ==> state@.surfaces[r].parent is None,
{
    let ghost links = surface_links(state@.surfaces);
    let count: usize = state.surfaces.len();
    let mut left: usize = count;
    let mut current = key;
    proof {
        state.surfaces.lemma_listed();
        lemma_climb_ends(links, table::ordered(state@.surfaces.dom()), key);
    }
    while left > 0
        invariant
            state.wf(),
            links == surface_links(state@.surfaces),
            left <= count,
            count == state@.surface_count(),
            climb(links, current, left as nat) == climb(links, key, count as nat),
            !links.contains_key(climb(links, key, count as nat)),
        decreases left,
    {
        let parent = match state.surfaces.get(current) {
            Some(surface) => surface.parent,
            None => None,
        };
        match parent {
            Some(id) => {
                current = (current.0, id);
                left = left - 1;
            },
            None => {
                assert(climb(links, current, left as nat) == current);
                return current;
            },
        }
    }
    current
}

/// Whether a surface is part of a window the user can currently see.
///
/// Popups and subsurfaces have no workspace of their own, so the question is
/// really about the toplevel they hang off: walking up to the root surface is
/// what turns one into the other. A surface with no toplevel above it - a
/// cursor surface, or one whose role has not been assigned yet - is in no
/// workspace and so not visible as a window.
pub fn is_visible(state: &CompositorState, key: ClientObjectId) -> (r: bool)
    requires
        state.wf(),
    ensures
        r == state@.is_shown(key),
{
    let root = root_surface(state, key);
    state.workspaces.is_visible(root)
}

/// Whether `to` is `from` or one of its ancestors.
pub fn is_ancestor(state: &CompositorState, to: ClientObjectId, from: ClientObjectId) -> (r: bool)
    requires
        state.wf(),
    ensures
        r == state@.under_surface(from, to),
        r == hangs_off(surface_links(state@.surfaces), from, to),
{
    let ghost links = surface_links(state@.surfaces);
    let count: usize = state.surfaces.len();
    let mut left: usize = count;
    let mut current = from;
    proof {
        state.surfaces.lemma_listed();
        lemma_reaches_enough(links, table::ordered(state@.surfaces.dom()), from, to);
    }
    loop
        invariant
            state.wf(),
            links == surface_links(state@.surfaces),
            left <= count,
            count == state@.surface_count(),
            reaches(links, current, to, left as nat) == reaches(links, from, to, count as nat),
            reaches(links, from, to, count as nat) == hangs_off(links, from, to),
        decreases left,
    {
        if current.0 == to.0 && current.1 == to.1 {
            return true;
        }
        let parent = match state.surfaces.get(current) {
            Some(surface) => surface.parent,
            None => None,
        };
        match parent {
            Some(id) => {
                if left == 0 {
                    return false;
                }
                current = (current.0, id);
                left = left - 1;
            },
            None => {
                return false;
            },
        }
    }
}

/// Whether making `parent` the parent of `child` would close a loop.
pub fn would_cycle(state: &CompositorState, child: ClientObjectId, parent: ClientObjectId) -> (r:
    bool)
    requires
        state.wf(),
    ensures
        r == state@.under_toplevel(parent, child),
        r == hangs_off(toplevel_links(state@.xdg_toplevels), parent, child),
{
    let ghost links = toplevel_links(state@.xdg_toplevels);
    let count: usize = state.xdg_toplevels.len();
    let mut left: usize = count;
    let mut current = parent;
    proof {
        state.xdg_toplevels.lemma_listed();
        lemma_reaches_enough(links, table::ordered(state@.xdg_toplevels.dom()), parent, child);
    }
    loop
        invariant
            state.wf(),
            links == toplevel_links(state@.xdg_toplevels),
            left <= count,
            count == state@.toplevel_count(),
            reaches(links, current, child, left as nat) == reaches(
                links,
                parent,
                child,
                count as nat,
            ),
            reaches(links, parent, child, count as nat) == hangs_off(links, parent, child),
        decreases left,
    {
        if current.0 == child.0 && current.1 == child.1 {
            return true;
        }
        let next = match state.xdg_toplevels.get(current) {
            Some(toplevel) => toplevel.parent,
            None => None,
        };
        match next {
            Some(id) => {
                if left == 0 {
                    return false;
                }
                current = (current.0, id);
                left = left - 1;
            },
            None => {
                return false;
            },
        }
    }
}

/// Compute the global position of a surface by walking up the parent chain.
pub fn surface_global_position(state: &CompositorState, client_id: u32, surface_id: u32) -> (r: (
    i32,
    i32,
))
    requires
        state.wf(),
    ensures
        r == state@.global_position((client_id, surface_id)),
{
    let count: usize = state.surfaces.len();
    let mut left: usize = count;
    let mut x: i32 = 0;
    let mut y: i32 = 0;
    let mut current: u32 = surface_id;
    loop
        invariant
            state.wf(),
            left <= count,
            count == state@.surface_count(),
            placed_from(state@.surfaces, (client_id, current), x, y, left as nat) == placed_from(
                state@.surfaces,
                (client_id, surface_id),
                0,
                0,
                count as nat,
            ),
        decreases left,
    {
        match state.surfaces.get((client_id, current)) {
            Some(surface) => {
                x = saturating_sum(x, surface.subsurface_position.0);
                y = saturating_sum(y, surface.subsurface_position.1);
                match surface.parent {
                    Some(parent) => {
                        if left == 0 {
                            return (x, y);
                        }
                        current = parent;
                        left = left - 1;
                    },
                    None => {
                        // Root surface - add its global position
                        return (
                            saturating_sum(x, surface.position.0),
                            saturating_sum(y, surface.position.1),
                        );
                    },
                }
            },
            None => {
                return (x, y);
            },
        }
    }
}

} // verus!

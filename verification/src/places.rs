//! Where surfaces are: as they are drawn, as they are found, and as they are
//! told.
//!
//! A surface hangs off another at an offset, and that one off a third, up to a
//! window that has a place of its own. The laws here say that all the ways of
//! asking where a surface is give the one answer this suggests: the place of
//! the window, and all the offsets on the way down. Coordinates stop at the
//! ends of their range, so the laws are about surfaces none of which is so far
//! out that this shows.

use crate::hits;
use crate::objects;
use crate::scene::{self, CacheView, Drawing};
use crate::shared::{OutputId, OutputView, SceneElementView, TextureId};
use crate::state::{self, State};
use crate::table;
use crate::tree;
use crate::workspace::ClientObjectId;
use vstd::prelude::*;

verus! {

/// A pair of coordinates is no further out than this.
pub open spec fn near(p: (i32, i32), reach: nat) -> bool {
    -reach <= p.0 <= reach && -reach <= p.1 <= reach
}

/// The surface so many steps down a way from another.
pub open spec fn stop(root: ClientObjectId, way: Seq<u32>, n: int) -> ClientObjectId {
    if n <= 0 {
        root
    } else {
        (root.0, way[n - 1])
    }
}

impl State {
    /// No surface is further than this from what it hangs off or from where
    /// coordinates begin, and there are so few of them that no way down them
    /// leads to the end of the coordinates.
    pub open spec fn compact(self, reach: nat) -> bool {
        &&& reach * (self.surface_count() + 5) <= 0x7fff_ffff
        &&& forall|k: ClientObjectId| #[trigger]
            self.surfaces.contains_key(k) ==> near(self.surfaces[k].position, reach) && near(
                self.surfaces[k].subsurface_position,
                reach,
            )
    }

    /// What hangs off a surface says so.
    pub open spec fn linked(self) -> bool {
        forall|k: ClientObjectId, c: u32|
            self.surfaces.contains_key(k) && #[trigger] self.surfaces[k].children.contains(c)
                && self.surfaces.contains_key((k.0, c)) ==> self.surfaces[(k.0, c)].parent == Some(
                k.1,
            )
    }

    /// Each surface on a way down from another hangs off the one before.
    pub open spec fn leads(self, root: ClientObjectId, way: Seq<u32>) -> bool {
        &&& self.surfaces.contains_key(root)
        &&& forall|n: int|
            0 <= n < way.len() ==> self.surfaces.contains_key((root.0, #[trigger] way[n]))
                && self.surfaces[stop(root, way, n)].children.contains(way[n])
    }

    /// How far it is down a way: all the offsets on it.
    pub open spec fn distance(self, root: ClientObjectId, way: Seq<u32>) -> (int, int)
        decreases way.len(),
    {
        if way.len() == 0 {
            (0, 0)
        } else {
            let d = self.distance(root, way.drop_last());
            let p = self.surfaces[(root.0, way.last())].subsurface_position;
            (d.0 + p.0, d.1 + p.1)
        }
    }

    /// There is a picture of a surface to draw.
    pub open spec fn pictured(self, key: ClientObjectId) -> bool {
        &&& self.surfaces.contains_key(key)
        &&& self.surfaces[key].buffer_id matches Some(id) && self.texture_of(
            CacheView::empty(),
            (key.0, id),
        ) is Some
        &&& self.surface_mapping(key) is Some
    }

    /// An element is the picture of a surface, with its corner at a place.
    pub open spec fn shows(self, e: SceneElementView, key: ClientObjectId, x: int, y: int) -> bool {
        &&& self.surfaces.contains_key(key)
        &&& self.surfaces[key].buffer_id matches Some(id) && e.texture.id == TextureId::Buffer(
            key.0,
            id,
        )
        &&& e.dst.0 == x && e.dst.1 == y
        &&& self.surface_mapping(key) matches Some(m) && e.dst.2 == m.dest_width && e.dst.3
            == m.dest_height && e.src == m.src
    }

    /// An element is the picture of something down a way from a surface that is
    /// at a place.
    pub open spec fn shows_along(
        self,
        e: SceneElementView,
        root: ClientObjectId,
        way: Seq<u32>,
        x: int,
        y: int,
    ) -> bool {
        &&& self.leads(root, way)
        &&& self.shows(
            e,
            stop(root, way, way.len() as int),
            x + self.distance(root, way).0,
            y + self.distance(root, way).1,
        )
    }

    /// An element is the picture of a surface at a place or of something that
    /// hangs off it, as far from it as the offsets say.
    #[verifier::opaque]
    pub open spec fn belongs(self, e: SceneElementView, root: ClientObjectId, x: int, y: int) -> bool {
        exists|way: Seq<u32>| #[trigger] self.shows_along(e, root, way, x, y)
    }
}

/// No way is longer than its offsets are.
proof fn lemma_distance(s: State, root: ClientObjectId, way: Seq<u32>, reach: nat)
    requires
        s.compact(reach),
        s.leads(root, way),
    ensures
        -reach * way.len() <= s.distance(root, way).0 <= reach * way.len(),
        -reach * way.len() <= s.distance(root, way).1 <= reach * way.len(),
    decreases way.len(),
{
    if way.len() > 0 {
        let up = way.drop_last();
        let n = up.len() as int;
        lemma_leads_up(s, root, way);
        lemma_distance(s, root, up, reach);
        assert(s.surfaces.contains_key((root.0, way[n])));
        assert(reach * (n + 1) == reach * n + reach && -reach * (n + 1) == -reach * n - reach)
            by (nonlinear_arith);
    } else {
        assert(reach * 0 == 0 && -reach * 0 == 0) by (nonlinear_arith);
    }
}

/// The beginning of a way is a way.
proof fn lemma_leads_up(s: State, root: ClientObjectId, way: Seq<u32>)
    requires
        s.leads(root, way),
        way.len() > 0,
    ensures
        s.leads(root, way.drop_last()),
        s.leads(root, way.drop_last()) && way.drop_last().push(way.last()) == way,
{
    let up = way.drop_last();
    assert forall|n: int| 0 <= n < up.len() implies s.surfaces.contains_key(
        (root.0, #[trigger] up[n]),
    ) && s.surfaces[stop(root, up, n)].children.contains(up[n]) by {
        assert(up[n] == way[n]);
        assert(stop(root, up, n) == stop(root, way, n));
    }
    assert(up.push(way.last()) =~= way);
}

/// A way with a step more.
proof fn lemma_leads_down(s: State, root: ClientObjectId, way: Seq<u32>, c: u32)
    requires
        s.leads(root, way),
        s.surfaces.contains_key((root.0, c)),
        s.surfaces[stop(root, way, way.len() as int)].children.contains(c),
    ensures
        s.leads(root, way.push(c)),
        s.distance(root, way.push(c)) == ({
            let d = s.distance(root, way);
            let p = s.surfaces[(root.0, c)].subsurface_position;
            (d.0 + p.0, d.1 + p.1)
        }),
        stop(root, way.push(c), way.len() as int + 1) == (root.0, c),
{
    let down = way.push(c);
    assert forall|n: int| 0 <= n < down.len() implies s.surfaces.contains_key(
        (root.0, #[trigger] down[n]),
    ) && s.surfaces[stop(root, down, n)].children.contains(down[n]) by {
        assert(stop(root, down, n) == stop(root, way, n));
        if n < way.len() {
            assert(down[n] == way[n]);
        }
    }
    assert(down.drop_last() =~= way);
}

/// Where something down a way is, no coordinate has reached its end.
proof fn lemma_in_range(s: State, root: ClientObjectId, way: Seq<u32>, reach: nat, x: int, y: int)
    requires
        s.compact(reach),
        s.leads(root, way),
        way.len() <= s.surface_count() + 1,
        -3 * reach <= x <= 3 * reach,
        -3 * reach <= y <= 3 * reach,
    ensures
        objects::saturated(x + s.distance(root, way).0) == x + s.distance(root, way).0,
        objects::saturated(y + s.distance(root, way).1) == y + s.distance(root, way).1,
{
    lemma_distance(s, root, way, reach);
    let n = way.len() as int;
    let count = s.surface_count() as int;
    assert(reach * n + 3 * reach <= reach * (count + 5) && -reach * n - 3 * reach >= -reach * (count
        + 5)) by (nonlinear_arith)
        requires
            0 <= n <= count + 1,
            reach >= 0,
    ;
    assert(-reach * (count + 5) == -(reach * (count + 5))) by (nonlinear_arith);
}

/// What is there already stays, in front of nothing new.
pub open spec fn extends(after: Seq<SceneElementView>, before: Seq<SceneElementView>) -> bool {
    before.len() <= after.len() && after.take(before.len() as int) == before
}

proof fn lemma_extends_on(a: Seq<SceneElementView>, b: Seq<SceneElementView>, c: Seq<SceneElementView>)
    requires
        extends(b, a),
        extends(c, b),
    ensures
        extends(c, a),
        forall|i: int| 0 <= i < b.len() ==> #[trigger] c[i] == b[i],
{
    assert forall|i: int| 0 <= i < b.len() implies #[trigger] c[i] == b[i] by {
        assert(c.take(b.len() as int)[i] == b[i]);
    }
    assert forall|i: int| 0 <= i < a.len() implies #[trigger] b[i] == a[i] by {
        assert(b.take(a.len() as int)[i] == a[i]);
    }
    assert(c.take(a.len() as int) =~= a);
}

/// Everything drawn from an index on is down a way from a surface at a place.
pub open spec fn all_along(
    s: State,
    elements: Seq<SceneElementView>,
    from: int,
    root: ClientObjectId,
    x: int,
    y: int,
) -> bool {
    forall|i: int|
        from <= i < elements.len() ==> s.belongs(#[trigger] elements[i], root, x, y)
}

/// Whether there is a picture does not depend on what is kept of earlier ones.
proof fn lemma_pictured(s: State, d: Drawing, key: ClientObjectId, x: i32, y: i32)
    ensures
        extends(s.surface_drawn(d, key, x, y).elements, d.elements),
        s.surfaces.contains_key(key) ==> (s.pictured(key) <==> s.surface_drawn(
            d,
            key,
            x,
            y,
        ).elements.len() > d.elements.len()),
        s.surface_drawn(d, key, x, y).elements.len() <= d.elements.len() + 1,
        s.surface_drawn(d, key, x, y).elements.len() > d.elements.len() ==> s.shows(
            s.surface_drawn(d, key, x, y).elements.last(),
            key,
            x as int,
            y as int,
        ),
{
    let after = s.surface_drawn(d, key, x, y).elements;
    assert(after.take(d.elements.len() as int) =~= d.elements);
}

/// Everything a tree of surfaces comes to is down a way from its root.
proof fn lemma_tree_drawn(
    s: State,
    d: Drawing,
    root: ClientObjectId,
    way: Seq<u32>,
    x: int,
    y: int,
    steps: nat,
    reach: nat,
)
    requires
        s.compact(reach),
        s.leads(root, way),
        way.len() + steps <= s.surface_count() + 1,
        -3 * reach <= x <= 3 * reach,
        -3 * reach <= y <= 3 * reach,
    ensures
        ({
            let after = s.tree_drawn(
                d,
                stop(root, way, way.len() as int),
                (x + s.distance(root, way).0) as i32,
                (y + s.distance(root, way).1) as i32,
                steps,
            ).elements;
            extends(after, d.elements) && all_along(s, after, d.elements.len() as int, root, x, y)
        }),
    decreases steps, 0nat,
{
    let key = stop(root, way, way.len() as int);
    lemma_in_range(s, root, way, reach, x, y);
    let px = (x + s.distance(root, way).0) as i32;
    let py = (y + s.distance(root, way).1) as i32;
    lemma_pictured(s, d, key, px, py);
    if way.len() > 0 {
        assert(s.surfaces.contains_key((root.0, way[way.len() - 1])));
    }
    let own = s.surface_drawn(d, key, px, py);
    if own.elements.len() > d.elements.len() {
        assert(s.belongs(own.elements.last(), root, x, y)) by {
            reveal(State::belongs);
            assert(s.shows_along(own.elements.last(), root, way, x, y));
        }
    }
    assert(all_along(s, own.elements, d.elements.len() as int, root, x, y));
    if steps > 0 {
        let children = s.surfaces[key].children;
        lemma_children_drawn(s, own, root, way, children, x, y, (steps - 1) as nat, reach);
        let after = s.children_drawn(own, key.0, children, px, py, (steps - 1) as nat).elements;
        lemma_extends_on(d.elements, own.elements, after);
        assert forall|i: int| d.elements.len() <= i < after.len() implies s.belongs(
            #[trigger] after[i],
            root,
            x,
            y,
        ) by {
            if i < own.elements.len() {
                assert(after[i] == own.elements[i]);
            }
        }
    }
}

proof fn lemma_children_drawn(
    s: State,
    d: Drawing,
    root: ClientObjectId,
    way: Seq<u32>,
    children: Seq<u32>,
    x: int,
    y: int,
    steps: nat,
    reach: nat,
)
    requires
        s.compact(reach),
        s.leads(root, way),
        way.len() + steps + 1 <= s.surface_count() + 1,
        -3 * reach <= x <= 3 * reach,
        -3 * reach <= y <= 3 * reach,
        forall|i: int|
            0 <= i < children.len() ==> s.surfaces[stop(
                root,
                way,
                way.len() as int,
            )].children.contains(#[trigger] children[i]),
    ensures
        ({
            let after = s.children_drawn(
                d,
                root.0,
                children,
                (x + s.distance(root, way).0) as i32,
                (y + s.distance(root, way).1) as i32,
                steps,
            ).elements;
            extends(after, d.elements) && all_along(s, after, d.elements.len() as int, root, x, y)
        }),
    decreases steps, children.len(),
{
    let px = (x + s.distance(root, way).0) as i32;
    let py = (y + s.distance(root, way).1) as i32;
    if children.len() == 0 {
        assert(d.elements.take(d.elements.len() as int) =~= d.elements);
    } else {
        let rest = children.drop_last();
        let c = children.last();
        assert forall|i: int| 0 <= i < rest.len() implies s.surfaces[stop(
            root,
            way,
            way.len() as int,
        )].children.contains(#[trigger] rest[i]) by {
            assert(rest[i] == children[i]);
        }
        lemma_children_drawn(s, d, root, way, rest, x, y, steps, reach);
        let before = s.children_drawn(d, root.0, rest, px, py, steps);
        if s.surfaces.contains_key((root.0, c)) {
            assert(children[children.len() - 1] == c);
            lemma_leads_down(s, root, way, c);
            lemma_in_range(s, root, way, reach, x, y);
            lemma_in_range(s, root, way.push(c), reach, x, y);
            lemma_tree_drawn(s, before, root, way.push(c), x, y, steps, reach);
            let after = s.children_drawn(d, root.0, children, px, py, steps).elements;
            lemma_extends_on(d.elements, before.elements, after);
            assert forall|i: int| d.elements.len() <= i < after.len() implies s.belongs(
                #[trigger] after[i],
                root,
                x,
                y,
            ) by {
                if i < before.elements.len() {
                    assert(after[i] == before.elements[i]);
                }
            }
        }
    }
}

/// The surface down a way is among what has been drawn from an index on, as far
/// from the surface the way begins at as the offsets say.
#[verifier::opaque]
pub open spec fn drawn_along(
    s: State,
    elements: Seq<SceneElementView>,
    from: int,
    root: ClientObjectId,
    way: Seq<u32>,
    x: int,
    y: int,
) -> bool {
    exists|i: int|
        from <= i < elements.len() && s.shows_along(#[trigger] elements[i], root, way, x, y)
}

proof fn lemma_still_drawn(
    s: State,
    before: Seq<SceneElementView>,
    after: Seq<SceneElementView>,
    from: int,
    root: ClientObjectId,
    way: Seq<u32>,
    x: int,
    y: int,
)
    requires
        0 <= from,
        extends(after, before),
        drawn_along(s, before, from, root, way, x, y),
    ensures
        drawn_along(s, after, from, root, way, x, y),
{
    reveal(drawn_along);
    let i = choose|i: int|
        from <= i < before.len() && s.shows_along(#[trigger] before[i], root, way, x, y);
    assert(after.take(before.len() as int)[i] == before[i]);
    assert(after[i] == before[i]);
}

/// Nothing with a picture is left out of a tree of surfaces.
proof fn lemma_tree_complete(
    s: State,
    d: Drawing,
    from: int,
    root: ClientObjectId,
    whole: Seq<u32>,
    n: nat,
    x: int,
    y: int,
    steps: nat,
    reach: nat,
)
    requires
        0 <= from <= d.elements.len(),
        s.compact(reach),
        s.leads(root, whole),
        n <= whole.len() <= n + steps,
        n + steps <= s.surface_count() + 1,
        s.pictured(stop(root, whole, whole.len() as int)),
        -3 * reach <= x <= 3 * reach,
        -3 * reach <= y <= 3 * reach,
    ensures
        drawn_along(
            s,
            s.tree_drawn(
                d,
                stop(root, whole, n as int),
                (x + s.distance(root, whole.take(n as int)).0) as i32,
                (y + s.distance(root, whole.take(n as int)).1) as i32,
                steps,
            ).elements,
            from,
            root,
            whole,
            x,
            y,
        ),
    decreases steps, 0nat,
{
    let way = whole.take(n as int);
    lemma_part(s, root, whole, n);
    let key = stop(root, way, n as int);
    lemma_in_range(s, root, way, reach, x, y);
    let px = (x + s.distance(root, way).0) as i32;
    let py = (y + s.distance(root, way).1) as i32;
    let own = s.surface_drawn(d, key, px, py);
    lemma_pictured(s, d, key, px, py);
    lemma_tree_drawn(s, d, root, way, x, y, steps, reach);
    if steps > 0 {
        let children = s.surfaces[key].children;
        lemma_children_drawn(s, own, root, way, children, x, y, (steps - 1) as nat, reach);
        let after = s.children_drawn(own, key.0, children, px, py, (steps - 1) as nat).elements;
        if n == whole.len() {
            assert(way =~= whole);
            assert(drawn_along(s, own.elements, from, root, whole, x, y)) by {
                reveal(drawn_along);
                assert(s.shows_along(own.elements[own.elements.len() - 1], root, whole, x, y));
            }
            lemma_still_drawn(s, own.elements, after, from, root, whole, x, y);
        } else {
            assert(whole[n as int] == whole[n as int]);
            assert(stop(root, whole, n as int) == key);
            lemma_children_complete(
                s,
                own,
                from,
                root,
                whole,
                n,
                children,
                x,
                y,
                (steps - 1) as nat,
                reach,
            );
        }
    } else {
        assert(way =~= whole);
        assert(drawn_along(s, own.elements, from, root, whole, x, y)) by {
            reveal(drawn_along);
            assert(s.shows_along(own.elements[own.elements.len() - 1], root, whole, x, y));
        }
    }
}

/// The beginning of a way is one, and goes where the way goes.
proof fn lemma_part(s: State, root: ClientObjectId, whole: Seq<u32>, n: nat)
    requires
        s.leads(root, whole),
        n <= whole.len(),
    ensures
        s.leads(root, whole.take(n as int)),
        stop(root, whole.take(n as int), n as int) == stop(root, whole, n as int),
        s.surfaces.contains_key(stop(root, whole, n as int)),
{
    let way = whole.take(n as int);
    assert forall|i: int| 0 <= i < way.len() implies s.surfaces.contains_key(
        (root.0, #[trigger] way[i]),
    ) && s.surfaces[stop(root, way, i)].children.contains(way[i]) by {
        assert(way[i] == whole[i]);
        assert(stop(root, way, i) == stop(root, whole, i));
    }
    if n > 0 {
        assert(s.surfaces.contains_key((root.0, whole[n - 1])));
    }
}

proof fn lemma_children_complete(
    s: State,
    d: Drawing,
    from: int,
    root: ClientObjectId,
    whole: Seq<u32>,
    n: nat,
    children: Seq<u32>,
    x: int,
    y: int,
    steps: nat,
    reach: nat,
)
    requires
        0 <= from <= d.elements.len(),
        s.compact(reach),
        s.leads(root, whole),
        n < whole.len() <= n + 1 + steps,
        n + 1 + steps <= s.surface_count() + 1,
        s.pictured(stop(root, whole, whole.len() as int)),
        -3 * reach <= x <= 3 * reach,
        -3 * reach <= y <= 3 * reach,
        children.contains(whole[n as int]),
        forall|i: int|
            0 <= i < children.len() ==> s.surfaces[stop(root, whole, n as int)].children.contains(
                #[trigger] children[i],
            ),
    ensures
        drawn_along(
            s,
            s.children_drawn(
                d,
                root.0,
                children,
                (x + s.distance(root, whole.take(n as int)).0) as i32,
                (y + s.distance(root, whole.take(n as int)).1) as i32,
                steps,
            ).elements,
            from,
            root,
            whole,
            x,
            y,
        ),
    decreases steps, children.len(),
{
    let way = whole.take(n as int);
    lemma_part(s, root, whole, n);
    let px = (x + s.distance(root, way).0) as i32;
    let py = (y + s.distance(root, way).1) as i32;
    let rest = children.drop_last();
    let c = children.last();
    assert forall|i: int| 0 <= i < rest.len() implies s.surfaces[stop(
        root,
        whole,
        n as int,
    )].children.contains(#[trigger] rest[i]) by {
        assert(rest[i] == children[i]);
    }
    let before = s.children_drawn(d, root.0, rest, px, py, steps);
    lemma_children_drawn(s, d, root, way, rest, x, y, steps, reach);
    assert(children[children.len() - 1] == c);
    if s.surfaces.contains_key((root.0, c)) {
        lemma_leads_down(s, root, way, c);
        lemma_in_range(s, root, way, reach, x, y);
        lemma_in_range(s, root, way.push(c), reach, x, y);
        lemma_tree_drawn(s, before, root, way.push(c), x, y, steps, reach);
    } else {
        assert(before.elements.take(before.elements.len() as int) =~= before.elements);
    }
    let after = s.children_drawn(d, root.0, children, px, py, steps).elements;
    if c == whole[n as int] {
        assert(s.surfaces.contains_key((root.0, whole[n as int])));
        assert(way.push(c) =~= whole.take(n as int + 1));
        lemma_tree_complete(s, before, from, root, whole, n + 1, x, y, steps, reach);
    } else {
        let j = choose|j: int| 0 <= j < children.len() && children[j] == whole[n as int];
        assert(rest[j] == whole[n as int]);
        lemma_children_complete(s, d, from, root, whole, n, rest, x, y, steps, reach);
        lemma_still_drawn(s, before.elements, after, from, root, whole, x, y);
    }
}

/// Climbing back up a way.
proof fn lemma_climb_back(s: State, root: ClientObjectId, way: Seq<u32>, m: nat)
    requires
        s.linked(),
        s.leads(root, way),
        m <= way.len(),
    ensures
        tree::climb(tree::surface_links(s.surfaces), stop(root, way, way.len() as int), m) == stop(
            root,
            way,
            way.len() - m,
        ),
    decreases m,
{
    if m > 0 {
        let n = way.len() as int;
        let links = tree::surface_links(s.surfaces);
        let key = stop(root, way, n);
        assert(s.surfaces.contains_key((root.0, way[n - 1])));
        let up = way.drop_last();
        lemma_leads_up(s, root, way);
        lemma_part(s, root, way, (n - 1) as nat);
        let parent = stop(root, way, n - 1);
        assert(s.surfaces[parent].children.contains(way[n - 1]));
        assert(s.surfaces[(parent.0, way[n - 1])].parent == Some(parent.1));
        assert(links.contains_key(key) && links[key] == parent);
        assert(stop(root, up, n - 1) == parent);
        lemma_climb_back(s, root, up, (m - 1) as nat);
        assert(stop(root, up, n - 1 - (m - 1)) == stop(root, way, n - m));
    }
}

/// No way is longer than there are surfaces.
proof fn lemma_ways_end(s: State, root: ClientObjectId, way: Seq<u32>)
    requires
        s.linked(),
        s.leads(root, way),
        s.surfaces.dom().finite(),
        tree::forest(tree::surface_links(s.surfaces)),
    ensures
        way.len() <= s.surface_count(),
{
    let links = tree::surface_links(s.surfaces);
    let places = table::ordered(s.surfaces.dom());
    let n = way.len() as int;
    table::lemma_finite_listed(s.surfaces.dom());
    if n > places.len() {
        let key = stop(root, way, n);
        assert forall|k: ClientObjectId| #[trigger] links.contains_key(k) implies places.contains(
            k,
        ) by {
            assert(s.surfaces.dom().contains(k));
        }
        tree::lemma_climb_ends(links, places, key);
        lemma_climb_back(s, root, way, places.len());
        let top = n - places.len();
        lemma_part(s, root, way, top as nat);
        lemma_climb_back(s, root, way.take(top), 1);
        assert(way.take(top)[top - 1] == way[top - 1]);
        let at = stop(root, way, top);
        let parent = stop(root, way, top - 1);
        assert(s.surfaces[parent].children.contains(way[top - 1]));
        lemma_part(s, root, way, (top - 1) as nat);
        assert(links.contains_key(at));
    }
}

/// Where a surface is found to be from below is where it is from above.
proof fn lemma_placed(
    s: State,
    root: ClientObjectId,
    way: Seq<u32>,
    ax: int,
    ay: int,
    k: nat,
    steps: nat,
    reach: nat,
)
    requires
        s.compact(reach),
        s.linked(),
        s.leads(root, way),
        s.surfaces[root].parent is None,
        s.surfaces[root].subsurface_position == (0i32, 0i32),
        way.len() <= steps,
        way.len() + k <= s.surface_count(),
        -reach * k <= ax <= reach * k,
        -reach * k <= ay <= reach * k,
    ensures
        tree::placed_from(
            s.surfaces,
            stop(root, way, way.len() as int),
            ax as i32,
            ay as i32,
            steps,
        ) == (
            (ax + s.distance(root, way).0 + s.surfaces[root].position.0) as i32,
            (ay + s.distance(root, way).1 + s.surfaces[root].position.1) as i32,
        ),
        i32::MIN <= ax + s.distance(root, way).0 + s.surfaces[root].position.0 <= i32::MAX,
        i32::MIN <= ay + s.distance(root, way).1 + s.surfaces[root].position.1 <= i32::MAX,
    decreases way.len(),
{
    let n = way.len() as int;
    let count = s.surface_count() as int;
    assert(reach * k + 3 * reach <= reach * (count + 5) && -reach * k - 3 * reach >= -reach * (
    count + 5)) by (nonlinear_arith)
        requires
            0 <= k <= count,
            reach >= 0,
    ;
    assert(-reach * (count + 5) == -(reach * (count + 5))) by (nonlinear_arith);
    assert(s.surfaces.contains_key(root));
    if n > 0 {
        assert(s.surfaces.contains_key((root.0, way[n - 1])));
        lemma_leads_up(s, root, way);
        lemma_part(s, root, way, (n - 1) as nat);
        let up = way.drop_last();
        let parent = stop(root, way, n - 1);
        assert(s.surfaces[parent].children.contains(way[n - 1]));
        assert(s.surfaces[(parent.0, way[n - 1])].parent == Some(parent.1));
        assert(stop(root, up, n - 1) == parent);
        let p = s.surfaces[(root.0, way[n - 1])].subsurface_position;
        assert(reach * (k + 1) == reach * k + reach && -reach * (k + 1) == -reach * k - reach)
            by (nonlinear_arith);
        lemma_placed(s, root, up, ax + p.0, ay + p.1, k + 1, (steps - 1) as nat, reach);
    }
}

/// A surface is where the window it is part of is, and as far from there as all
/// the offsets on the way come to.
pub proof fn law_a_surface_is_where_its_offsets_lead(
    s: State,
    root: ClientObjectId,
    way: Seq<u32>,
    reach: nat,
)
    requires
        s.surfaces.dom().finite(),
        tree::forest(tree::surface_links(s.surfaces)),
        s.compact(reach),
        s.linked(),
        s.leads(root, way),
        s.surfaces[root].parent is None,
        s.surfaces[root].subsurface_position == (0i32, 0i32),
    ensures
        s.global_position(stop(root, way, way.len() as int)).0 == s.surfaces[root].position.0
            + s.distance(root, way).0,
        s.global_position(stop(root, way, way.len() as int)).1 == s.surfaces[root].position.1
            + s.distance(root, way).1,
        s.root_of(stop(root, way, way.len() as int)) == root,
{
    lemma_ways_end(s, root, way);
    assert(reach * 0 == 0 && -reach * 0 == 0) by (nonlinear_arith);
    lemma_placed(s, root, way, 0, 0, 0, s.surface_count(), reach);
    let key = stop(root, way, way.len() as int);
    let links = tree::surface_links(s.surfaces);
    lemma_climb_back(s, root, way, way.len());
    lemma_climb_on(links, key, way.len(), s.surface_count());
}

/// A climb that has ended stays where it is.
proof fn lemma_climb_on(
    links: Map<ClientObjectId, ClientObjectId>,
    key: ClientObjectId,
    fewer: nat,
    more: nat,
)
    requires
        fewer <= more,
        !links.contains_key(tree::climb(links, key, fewer)),
    ensures
        tree::climb(links, key, more) == tree::climb(links, key, fewer),
    decreases fewer,
{
    if fewer > 0 && links.contains_key(key) {
        lemma_climb_on(links, links[key], (fewer - 1) as nat, (more - 1) as nat);
    }
}

/// What a point is found to be on is down a way, and as far from where the way
/// begins as the offsets say.
#[verifier::opaque]
pub open spec fn found_along(
    s: State,
    hit: Option<(ClientObjectId, i32, i32)>,
    root: ClientObjectId,
    x: int,
    y: int,
) -> bool {
    hit matches Some(h) ==> exists|way: Seq<u32>| #[trigger]
        s.leads(root, way) && h.0 == stop(root, way, way.len() as int) && h.1 == x + s.distance(
            root,
            way,
        ).0 && h.2 == y + s.distance(root, way).1
}

proof fn lemma_tree_found(
    s: State,
    root: ClientObjectId,
    way: Seq<u32>,
    x: int,
    y: int,
    px: i32,
    py: i32,
    steps: nat,
    reach: nat,
)
    requires
        s.compact(reach),
        s.leads(root, way),
        way.len() + steps <= s.surface_count() + 1,
        -3 * reach <= x <= 3 * reach,
        -3 * reach <= y <= 3 * reach,
    ensures
        found_along(
            s,
            s.hit_tree(
                stop(root, way, way.len() as int),
                (x + s.distance(root, way).0) as i32,
                (y + s.distance(root, way).1) as i32,
                px,
                py,
                steps,
            ),
            root,
            x,
            y,
        ),
    decreases steps, 0nat,
{
    let key = stop(root, way, way.len() as int);
    lemma_in_range(s, root, way, reach, x, y);
    lemma_part(s, root, way, way.len());
    reveal(found_along);
    if steps > 0 {
        lemma_children_found(
            s,
            root,
            way,
            s.surfaces[key].children,
            x,
            y,
            px,
            py,
            (steps - 1) as nat,
            reach,
        );
    }
}

proof fn lemma_children_found(
    s: State,
    root: ClientObjectId,
    way: Seq<u32>,
    children: Seq<u32>,
    x: int,
    y: int,
    px: i32,
    py: i32,
    steps: nat,
    reach: nat,
)
    requires
        s.compact(reach),
        s.leads(root, way),
        way.len() + steps + 1 <= s.surface_count() + 1,
        -3 * reach <= x <= 3 * reach,
        -3 * reach <= y <= 3 * reach,
        forall|i: int|
            0 <= i < children.len() ==> s.surfaces[stop(
                root,
                way,
                way.len() as int,
            )].children.contains(#[trigger] children[i]),
    ensures
        found_along(
            s,
            s.hit_children(
                root.0,
                children,
                (x + s.distance(root, way).0) as i32,
                (y + s.distance(root, way).1) as i32,
                px,
                py,
                steps,
            ),
            root,
            x,
            y,
        ),
    decreases steps, children.len(),
{
    if children.len() == 0 {
        reveal(found_along);
    } else {
        let rest = children.drop_last();
        let c = children.last();
        assert(children[children.len() - 1] == c);
        assert forall|i: int| 0 <= i < rest.len() implies s.surfaces[stop(
            root,
            way,
            way.len() as int,
        )].children.contains(#[trigger] rest[i]) by {
            assert(rest[i] == children[i]);
        }
        lemma_children_found(s, root, way, rest, x, y, px, py, steps, reach);
        if s.surfaces.contains_key((root.0, c)) {
            lemma_leads_down(s, root, way, c);
            lemma_in_range(s, root, way, reach, x, y);
            lemma_in_range(s, root, way.push(c), reach, x, y);
            lemma_tree_found(s, root, way.push(c), x, y, px, py, steps, reach);
        }
    }
}

proof fn lemma_found_among(
    s: State,
    windows: Seq<ClientObjectId>,
    px: i32,
    py: i32,
    reach: nat,
)
    requires
        s.compact(reach),
    ensures
        s.hit_among(windows, px, py) matches Some(h) ==> {
            &&& windows.contains(h.toplevel)
            &&& s.surfaces.contains_key(h.toplevel)
            &&& found_along(
                s,
                Some((h.surface, h.surface_x, h.surface_y)),
                h.toplevel,
                s.surfaces[h.toplevel].position.0 as int,
                s.surfaces[h.toplevel].position.1 as int,
            )
        },
    decreases windows.len(),
{
    if windows.len() > 0 {
        let key = windows.last();
        assert(windows[windows.len() - 1] == key);
        let rest = windows.drop_last();
        lemma_found_among(s, rest, px, py, reach);
        if let Some(h) = s.hit_among(rest, px, py) {
            let n = choose|n: int| 0 <= n < rest.len() && rest[n] == h.toplevel;
            assert(windows[n] == h.toplevel);
        }
        if s.surfaces.contains_key(key) {
            let position = s.surfaces[key].position;
            assert(s.leads(key, Seq::empty()));
            assert(s.distance(key, Seq::empty()) == (0int, 0int));
            lemma_tree_found(
                s,
                key,
                Seq::empty(),
                position.0 as int,
                position.1 as int,
                px,
                py,
                s.surface_count(),
                reach,
            );
        }
    }
}

impl State {
    /// A window hangs off nothing.
    pub open spec fn free_standing(self, window: ClientObjectId) -> bool {
        &&& self.surfaces.contains_key(window)
        &&& self.surfaces[window].parent is None
        &&& self.surfaces[window].subsurface_position == (0i32, 0i32)
    }

    /// Surfaces hang together as they should: what hangs off one says so, none
    /// hangs off itself, and none is too far out.
    pub open spec fn hangs_together(self, reach: nat) -> bool {
        &&& self.surfaces.dom().finite()
        &&& tree::forest(tree::surface_links(self.surfaces))
        &&& self.linked()
        &&& self.compact(reach)
    }
}

/// What a point is found to be on is found where it is: the place that comes
/// with it is the surface's own, and the window that comes with it is the one
/// the surface is part of.
pub proof fn law_a_hit_is_where_the_surface_is(s: State, px: i32, py: i32, reach: nat)
    requires
        s.hangs_together(reach),
        s.hit(px, py) matches Some(h) ==> s.free_standing(h.toplevel),
    ensures
        s.hit(px, py) matches Some(h) ==> {
            &&& (h.surface_x, h.surface_y) == s.global_position(h.surface)
            &&& h.toplevel == s.root_of(h.surface)
        },
{
    if let Some(h) = s.hit(px, py) {
        lemma_found_among(s, hits::seen_on(s.workspaces, s.outputs), px, py, reach);
        reveal(found_along);
        let p = s.surfaces[h.toplevel].position;
        let way = choose|way: Seq<u32>| #[trigger]
            s.leads(h.toplevel, way) && h.surface == stop(h.toplevel, way, way.len() as int)
                && h.surface_x == p.0 + s.distance(h.toplevel, way).0 && h.surface_y == p.1
                + s.distance(h.toplevel, way).1;
        law_a_surface_is_where_its_offsets_lead(s, h.toplevel, way, reach);
    }
}

/// Windows drawn one after another.
proof fn lemma_windows_drawn(
    s: State,
    d: Drawing,
    stack: Seq<ClientObjectId>,
    origin: (i32, i32),
    reach: nat,
)
    requires
        s.compact(reach),
        near(origin, reach),
    ensures
        ({
            let after = state::each(d, stack, scene::drawing(s, origin)).elements;
            &&& extends(after, d.elements)
            &&& forall|i: int|
                d.elements.len() <= i < after.len() ==> of_a_window(
                    s,
                    #[trigger] after[i],
                    stack,
                    origin,
                )
        }),
    decreases stack.len(),
{
    if stack.len() == 0 {
        assert(d.elements.take(d.elements.len() as int) =~= d.elements);
    } else {
        let rest = stack.drop_last();
        let key = stack.last();
        assert(stack[stack.len() - 1] == key);
        lemma_windows_drawn(s, d, rest, origin, reach);
        let before = state::each(d, rest, scene::drawing(s, origin));
        let after = state::each(d, stack, scene::drawing(s, origin));
        assert(after == s.window_drawn(before, key, origin));
        lemma_window_drawn(s, before, key, origin, reach);
        lemma_extends_on(d.elements, before.elements, after.elements);
        assert forall|i: int| d.elements.len() <= i < after.elements.len() implies of_a_window(
            s,
            #[trigger] after.elements[i],
            stack,
            origin,
        ) by {
            reveal(of_a_window);
            let e = after.elements[i];
            if i < before.elements.len() {
                assert(of_a_window(s, before.elements[i], rest, origin));
                let w = choose|w: ClientObjectId| #[trigger]
                    rest.contains(w) && s.surfaces.contains_key(w) && s.belongs(
                        e,
                        w,
                        s.surfaces[w].position.0 - origin.0,
                        s.surfaces[w].position.1 - origin.1,
                    );
                let n = choose|n: int| 0 <= n < rest.len() && rest[n] == w;
                assert(stack[n] == w);
                assert(stack.contains(w));
            } else {
                assert(stack.contains(key));
            }
        }
    }
}

/// An element is the picture of one of some windows or of something that hangs
/// off it, seen from a corner.
#[verifier::opaque]
pub open spec fn of_a_window(
    s: State,
    e: SceneElementView,
    stack: Seq<ClientObjectId>,
    origin: (i32, i32),
) -> bool {
    exists|w: ClientObjectId| #[trigger]
        stack.contains(w) && s.surfaces.contains_key(w) && s.belongs(
            e,
            w,
            s.surfaces[w].position.0 - origin.0,
            s.surfaces[w].position.1 - origin.1,
        )
}

proof fn lemma_window_drawn(
    s: State,
    d: Drawing,
    key: ClientObjectId,
    origin: (i32, i32),
    reach: nat,
)
    requires
        s.compact(reach),
        near(origin, reach),
    ensures
        extends(s.window_drawn(d, key, origin).elements, d.elements),
        s.surfaces.contains_key(key) ==> all_along(
            s,
            s.window_drawn(d, key, origin).elements,
            d.elements.len() as int,
            key,
            s.surfaces[key].position.0 - origin.0,
            s.surfaces[key].position.1 - origin.1,
        ),
        !s.surfaces.contains_key(key) ==> s.window_drawn(d, key, origin) == d,
        s.surfaces.contains_key(key) ==> s.window_drawn(d, key, origin) == s.tree_drawn(
            d,
            key,
            (s.surfaces[key].position.0 - origin.0) as i32,
            (s.surfaces[key].position.1 - origin.1) as i32,
            s.surface_count(),
        ),
{
    if s.surfaces.contains_key(key) {
        let x = s.surfaces[key].position.0 - origin.0;
        let y = s.surfaces[key].position.1 - origin.1;
        assert(s.leads(key, Seq::empty()));
        assert(s.distance(key, Seq::empty()) == (0int, 0int));
        lemma_in_range(s, key, Seq::empty(), reach, x, y);
        lemma_tree_drawn(s, d, key, Seq::empty(), x, y, s.surface_count(), reach);
    } else {
        assert(d.elements.take(d.elements.len() as int) =~= d.elements);
    }
}

/// The windows that come first are drawn first.
proof fn lemma_prefix_drawn(
    s: State,
    d: Drawing,
    stack: Seq<ClientObjectId>,
    n: int,
    origin: (i32, i32),
    reach: nat,
)
    requires
        s.compact(reach),
        near(origin, reach),
        0 <= n <= stack.len(),
    ensures
        extends(
            state::each(d, stack, scene::drawing(s, origin)).elements,
            state::each(d, stack.take(n), scene::drawing(s, origin)).elements,
        ),
    decreases stack.len(),
{
    let f = scene::drawing(s, origin);
    let after = state::each(d, stack, f);
    if n == stack.len() {
        assert(stack.take(n) =~= stack);
        assert(after.elements.take(after.elements.len() as int) =~= after.elements);
    } else {
        let rest = stack.drop_last();
        assert(rest.take(n) =~= stack.take(n));
        lemma_prefix_drawn(s, d, rest, n, origin, reach);
        let before = state::each(d, rest, f);
        assert(after == s.window_drawn(before, stack.last(), origin));
        lemma_window_drawn(s, before, stack.last(), origin, reach);
        lemma_extends_on(state::each(d, stack.take(n), f).elements, before.elements, after.elements);
    }
}

/// What hangs off the nth of some windows is drawn after everything of the
/// windows before it, and before everything of those behind it.
proof fn lemma_window_complete(
    s: State,
    d: Drawing,
    stack: Seq<ClientObjectId>,
    n: int,
    way: Seq<u32>,
    origin: (i32, i32),
    reach: nat,
)
    requires
        s.hangs_together(reach),
        near(origin, reach),
        0 <= n < stack.len(),
        s.leads(stack[n], way),
        s.pictured(stop(stack[n], way, way.len() as int)),
    ensures
        drawn_along(
            s,
            state::each(d, stack.take(n + 1), scene::drawing(s, origin)).elements,
            state::each(d, stack.take(n), scene::drawing(s, origin)).elements.len() as int,
            stack[n],
            way,
            s.surfaces[stack[n]].position.0 - origin.0,
            s.surfaces[stack[n]].position.1 - origin.1,
        ),
{
    let f = scene::drawing(s, origin);
    let window = stack[n];
    state::lemma_each_step(d, stack, f, n);
    let before = state::each(d, stack.take(n), f);
    let x = s.surfaces[window].position.0 - origin.0;
    let y = s.surfaces[window].position.1 - origin.1;
    lemma_window_drawn(s, before, window, origin, reach);
    lemma_ways_end(s, window, way);
    assert(way.take(0) =~= Seq::empty());
    assert(s.distance(window, way.take(0)) == (0int, 0int));
    lemma_tree_complete(
        s,
        before,
        before.elements.len() as int,
        window,
        way,
        0,
        x,
        y,
        s.surface_count(),
        reach,
    );
}

/// An element is the picture of a part of one of some windows, and is drawn
/// where that part is, seen from the corner of an output.
pub open spec fn in_its_place(
    s: State,
    e: SceneElementView,
    stack: Seq<ClientObjectId>,
    o: OutputView,
) -> bool {
    exists|key: ClientObjectId|
        s.shows(e, key, s.global_position(key).0 - o.x, s.global_position(key).1 - o.y)
            && #[trigger] stack.contains(s.root_of(key))
}

proof fn lemma_in_its_place(
    s: State,
    e: SceneElementView,
    stack: Seq<ClientObjectId>,
    o: OutputView,
    reach: nat,
)
    requires
        s.hangs_together(reach),
        forall|k: ClientObjectId| #[trigger]
            stack.contains(k) && s.surfaces.contains_key(k) ==> s.free_standing(k),
        of_a_window(s, e, stack, (o.x, o.y)),
    ensures
        in_its_place(s, e, stack, o),
{
    reveal(of_a_window);
    reveal(State::belongs);
    let w = choose|w: ClientObjectId| #[trigger]
        stack.contains(w) && s.surfaces.contains_key(w) && s.belongs(
            e,
            w,
            s.surfaces[w].position.0 - o.x,
            s.surfaces[w].position.1 - o.y,
        );
    let x = s.surfaces[w].position.0 - o.x;
    let y = s.surfaces[w].position.1 - o.y;
    let way = choose|way: Seq<u32>| #[trigger] s.shows_along(e, w, way, x, y);
    law_a_surface_is_where_its_offsets_lead(s, w, way, reach);
    let key = stop(w, way, way.len() as int);
    assert(stack.contains(s.root_of(key)));
}

/// An element is what is drawn of the cursor: with its hotspot where the pointer
/// is, seen from the corner of an output.
pub open spec fn points(s: State, e: SceneElementView, o: OutputView) -> bool {
    match s.cursor_picked() {
        scene::CursorPick::Hidden => false,
        scene::CursorPick::Surface(key, hotspot_x, hotspot_y) => s.shows(
            e,
            key,
            s.pixel().0 - o.x - hotspot_x,
            s.pixel().1 - o.y - hotspot_y,
        ),
        scene::CursorPick::Compositor => {
            &&& e.dst.0 + s.own_hotspot().0 == s.pixel().0 - o.x
            &&& e.dst.1 + s.own_hotspot().1 == s.pixel().1 - o.y
            &&& e.dst.2 == e.texture.width && e.dst.3 == e.texture.height
            &&& e.src.0 == 0 && e.src.1 == 0
            &&& e.src.2 == 256 * e.texture.width && e.src.3 == 256 * e.texture.height
        },
    }
}

/// An element is part of the icon of a drag, which hangs off the pointer.
pub open spec fn dragged(s: State, e: SceneElementView, o: OutputView) -> bool {
    s.drag matches Some(drag) && drag.icon matches Some(icon) && s.belongs(
        e,
        icon,
        s.pixel().0 - o.x + s.surfaces[icon].offset.0,
        s.pixel().1 - o.y + s.surfaces[icon].offset.1,
    )
}

impl State {
    /// An output, the pointer, and what is drawn at the pointer are none of them
    /// too far out.
    pub open spec fn within(self, o: OutputView, reach: nat) -> bool {
        &&& near((o.x, o.y), reach)
        &&& near(self.pixel(), reach)
        &&& near(self.own_hotspot(), reach)
        &&& (self.cursor_picked() matches scene::CursorPick::Surface(_, x, y) ==> near(
            (x, y),
            reach,
        ))
        &&& (self.drag matches Some(d) ==> (d.icon matches Some(icon) ==> near(
            self.surfaces[icon].offset,
            reach,
        )))
    }

    /// The windows an output shows are windows: they hang off nothing.
    pub open spec fn shows_windows(self, id: OutputId) -> bool {
        forall|k: ClientObjectId| #[trigger]
            self.workspaces.visible_stack(id).contains(k) && self.surfaces.contains_key(k)
                ==> self.free_standing(k)
    }
}

/// Everything drawn on an output is drawn where it is: a part of a window as far
/// from the corner of the output as the surface is, the icon of a drag at the
/// pointer, and the cursor, which is drawn last, with its hotspot on the pointer.
pub proof fn law_everything_is_drawn_where_it_is(
    s: State,
    id: OutputId,
    cache: CacheView,
    i: int,
    reach: nat,
)
    requires
        s.output(id) is Some,
        s.hangs_together(reach),
        s.within(s.output(id).unwrap(), reach),
        s.shows_windows(id),
        0 <= i < s.composed(id, cache).elements.len(),
    ensures
        ({
            let o = s.output(id).unwrap();
            let elements = s.composed(id, cache).elements;
            ||| in_its_place(s, elements[i], s.workspaces.visible_stack(id), o)
            ||| dragged(s, elements[i], o)
            ||| i == elements.len() - 1 && points(s, elements[i], o)
        }),
{
    let o = s.output(id).unwrap();
    let stack = s.workspaces.visible_stack(id);
    let start = Drawing { cache, elements: Seq::empty() };
    let windows = state::each(start, stack, scene::drawing(s, (o.x, o.y)));
    lemma_windows_drawn(s, start, stack, (o.x, o.y), reach);
    let iconed = s.icon_drawn(windows, o);
    lemma_icon_drawn(s, windows, o, reach);
    let all = s.composed(id, cache);
    assert(all == s.cursor_drawn(iconed, o));
    lemma_cursor_drawn(s, iconed, o, reach);
    lemma_extends_on(windows.elements, iconed.elements, all.elements);
    let e = all.elements[i];
    if i < windows.elements.len() {
        assert(e == iconed.elements[i]);
        assert(iconed.elements.take(windows.elements.len() as int)[i] == windows.elements[i]);
        lemma_in_its_place(s, e, stack, o, reach);
    } else if i < iconed.elements.len() {
        assert(e == iconed.elements[i]);
    }
}

proof fn lemma_icon_drawn(s: State, d: Drawing, o: OutputView, reach: nat)
    requires
        s.compact(reach),
        s.within(o, reach),
    ensures
        extends(s.icon_drawn(d, o).elements, d.elements),
        forall|i: int|
            d.elements.len() <= i < s.icon_drawn(d, o).elements.len() ==> dragged(
                s,
                #[trigger] s.icon_drawn(d, o).elements[i],
                o,
            ),
{
    assert(d.elements.take(d.elements.len() as int) =~= d.elements);
    if let (Some(drag), Some(at)) = (s.drag, s.pointer_on(o)) {
        if let Some(icon) = drag.icon {
            if s.surfaces.contains_key(icon) {
                let offset = s.surfaces[icon].offset;
                let x = s.pixel().0 - o.x + offset.0;
                let y = s.pixel().1 - o.y + offset.1;
                assert(s.leads(icon, Seq::empty()));
                assert(s.distance(icon, Seq::empty()) == (0int, 0int));
                lemma_in_range(s, icon, Seq::empty(), reach, x, y);
                lemma_in_range(s, icon, Seq::empty(), reach, x - offset.0, y - offset.1);
                lemma_tree_drawn(s, d, icon, Seq::empty(), x, y, s.surface_count(), reach);
            }
        }
    }
}

proof fn lemma_cursor_drawn(s: State, d: Drawing, o: OutputView, reach: nat)
    requires
        s.compact(reach),
        s.within(o, reach),
    ensures
        extends(s.cursor_drawn(d, o).elements, d.elements),
        s.cursor_drawn(d, o).elements.len() <= d.elements.len() + 1,
        s.cursor_drawn(d, o).elements.len() > d.elements.len() ==> points(
            s,
            s.cursor_drawn(d, o).elements.last(),
            o,
        ),
{
    let count = s.surface_count() as int;
    assert(3 * reach <= reach * (count + 5)) by (nonlinear_arith)
        requires
            count >= 0,
            reach >= 0,
    ;
    let after = s.cursor_drawn(d, o);
    if let Some(at) = s.pointer_on(o) {
        match s.cursor_picked() {
            scene::CursorPick::Surface(key, hotspot_x, hotspot_y) => {
                lemma_pictured(
                    s,
                    d,
                    key,
                    objects::saturated(at.0 - hotspot_x),
                    objects::saturated(at.1 - hotspot_y),
                );
            },
            _ => {},
        }
    }
    assert(after.elements.take(d.elements.len() as int) =~= d.elements);
}

/// Every surface with a picture that is part of a window an output shows is
/// drawn on that output, as far from its corner as the surface is.
pub proof fn law_every_part_of_a_window_is_drawn(
    s: State,
    id: OutputId,
    cache: CacheView,
    n: int,
    way: Seq<u32>,
    reach: nat,
)
    requires
        s.output(id) matches Some(o) && crate::seqs::first(o.modes, scene::current()) is Some,
        s.hangs_together(reach),
        s.within(s.output(id).unwrap(), reach),
        0 <= n < s.workspaces.visible_stack(id).len(),
        s.free_standing(s.workspaces.visible_stack(id)[n]),
        s.leads(s.workspaces.visible_stack(id)[n], way),
        s.pictured(stop(s.workspaces.visible_stack(id)[n], way, way.len() as int)),
    ensures
        ({
            let o = s.output(id).unwrap();
            let key = stop(s.workspaces.visible_stack(id)[n], way, way.len() as int);
            let elements = s.composed(id, cache).elements;
            exists|i: int|
                0 <= i < elements.len() && s.shows(
                    #[trigger] elements[i],
                    key,
                    s.global_position(key).0 - o.x,
                    s.global_position(key).1 - o.y,
                )
        }),
{
    let o = s.output(id).unwrap();
    let stack = s.workspaces.visible_stack(id);
    let window = stack[n];
    law_a_surface_is_where_its_offsets_lead(s, window, way, reach);
    let elements = s.composed(id, cache).elements;
    let at = lemma_drawn_at(s, id, cache, n, way, reach);
    assert(s.shows_along(
        elements[at.0],
        window,
        way,
        s.surfaces[window].position.0 - o.x,
        s.surfaces[window].position.1 - o.y,
    ));
}

/// Where in what is composed a part of a window is: behind everything of the
/// windows in front of it.
proof fn lemma_drawn_at(
    s: State,
    id: OutputId,
    cache: CacheView,
    n: int,
    way: Seq<u32>,
    reach: nat,
) -> (r: (int, int, int))
    requires
        s.output(id) matches Some(o) && crate::seqs::first(o.modes, scene::current()) is Some,
        s.hangs_together(reach),
        s.within(s.output(id).unwrap(), reach),
        0 <= n < s.workspaces.visible_stack(id).len(),
        s.leads(s.workspaces.visible_stack(id)[n], way),
        s.pictured(stop(s.workspaces.visible_stack(id)[n], way, way.len() as int)),
    ensures
        ({
            let o = s.output(id).unwrap();
            let stack = s.workspaces.visible_stack(id);
            let window = stack[n];
            let elements = s.composed(id, cache).elements;
            let start = Drawing { cache, elements: Seq::empty() };
            let f = scene::drawing(s, (o.x, o.y));
            &&& 0 <= r.0 < elements.len()
            &&& r.1 == state::each(start, stack.take(n), f).elements.len()
            &&& r.2 == state::each(start, stack.take(n + 1), f).elements.len()
            &&& r.1 <= r.0 < r.2
            &&& s.shows_along(
                elements[r.0],
                window,
                way,
                s.surfaces[window].position.0 - o.x,
                s.surfaces[window].position.1 - o.y,
            )
        }),
{
    let o = s.output(id).unwrap();
    let stack = s.workspaces.visible_stack(id);
    let window = stack[n];
    let start = Drawing { cache, elements: Seq::empty() };
    let f = scene::drawing(s, (o.x, o.y));
    let x = s.surfaces[window].position.0 - o.x;
    let y = s.surfaces[window].position.1 - o.y;
    let cut = state::each(start, stack.take(n + 1), f).elements;
    let from = state::each(start, stack.take(n), f).elements.len() as int;
    let windows = state::each(start, stack, f);
    let iconed = s.icon_drawn(windows, o);
    let all = s.composed(id, cache);
    lemma_window_complete(s, start, stack, n, way, (o.x, o.y), reach);
    lemma_prefix_drawn(s, start, stack, n + 1, (o.x, o.y), reach);
    lemma_icon_drawn(s, windows, o, reach);
    lemma_cursor_drawn(s, iconed, o, reach);
    lemma_extends_on(cut, windows.elements, iconed.elements);
    lemma_extends_on(cut, iconed.elements, all.elements);
    reveal(drawn_along);
    let i = choose|i: int|
        from <= i < cut.len() && s.shows_along(#[trigger] cut[i], window, way, x, y);
    assert(all.elements.take(cut.len() as int)[i] == cut[i]);
    (i, from, cut.len() as int)
}

/// Windows are drawn back to front: everything of one behind another comes
/// before everything of the other.
pub proof fn law_windows_are_drawn_back_to_front(
    s: State,
    id: OutputId,
    cache: CacheView,
    behind: int,
    front: int,
    way: Seq<u32>,
    other: Seq<u32>,
    reach: nat,
)
    requires
        s.output(id) matches Some(o) && crate::seqs::first(o.modes, scene::current()) is Some,
        s.hangs_together(reach),
        s.within(s.output(id).unwrap(), reach),
        0 <= behind < front < s.workspaces.visible_stack(id).len(),
        s.leads(s.workspaces.visible_stack(id)[behind], way),
        s.leads(s.workspaces.visible_stack(id)[front], other),
        s.pictured(stop(s.workspaces.visible_stack(id)[behind], way, way.len() as int)),
        s.pictured(stop(s.workspaces.visible_stack(id)[front], other, other.len() as int)),
    ensures
        ({
            let o = s.output(id).unwrap();
            let a = s.workspaces.visible_stack(id)[behind];
            let b = s.workspaces.visible_stack(id)[front];
            let elements = s.composed(id, cache).elements;
            exists|i: int, j: int|
                0 <= i < j < elements.len() && s.shows_along(
                    #[trigger] elements[i],
                    a,
                    way,
                    s.surfaces[a].position.0 - o.x,
                    s.surfaces[a].position.1 - o.y,
                ) && s.shows_along(
                    #[trigger] elements[j],
                    b,
                    other,
                    s.surfaces[b].position.0 - o.x,
                    s.surfaces[b].position.1 - o.y,
                )
        }),
{
    let o = s.output(id).unwrap();
    let stack = s.workspaces.visible_stack(id);
    let start = Drawing { cache, elements: Seq::empty() };
    let f = scene::drawing(s, (o.x, o.y));
    let i = lemma_drawn_at(s, id, cache, behind, way, reach);
    let j = lemma_drawn_at(s, id, cache, front, other, reach);
    assert(stack.take(front).take(behind + 1) =~= stack.take(behind + 1));
    lemma_prefix_drawn(s, start, stack.take(front), behind + 1, (o.x, o.y), reach);
    assert(i.0 < j.0);
    let elements = s.composed(id, cache).elements;
    assert(s.shows_along(
        elements[i.0],
        stack[behind],
        way,
        s.surfaces[stack[behind]].position.0 - o.x,
        s.surfaces[stack[behind]].position.1 - o.y,
    ));
}

/// What a point is found to be on is drawn there: on the output that shows the
/// window, as far from its corner as the hit says the surface is.
pub proof fn law_what_is_hit_is_drawn_there(
    s: State,
    id: OutputId,
    cache: CacheView,
    px: i32,
    py: i32,
    reach: nat,
)
    requires
        s.output(id) matches Some(o) && crate::seqs::first(o.modes, scene::current()) is Some,
        s.hangs_together(reach),
        s.within(s.output(id).unwrap(), reach),
        s.hit(px, py) matches Some(h) && s.free_standing(h.toplevel) && s.pictured(h.surface)
            && s.workspaces.visible_stack(id).contains(h.toplevel),
    ensures
        ({
            let o = s.output(id).unwrap();
            let h = s.hit(px, py).unwrap();
            let elements = s.composed(id, cache).elements;
            exists|i: int|
                0 <= i < elements.len() && s.shows(
                    #[trigger] elements[i],
                    h.surface,
                    h.surface_x - o.x,
                    h.surface_y - o.y,
                )
        }),
{
    let h = s.hit(px, py).unwrap();
    let stack = s.workspaces.visible_stack(id);
    let n = choose|n: int| 0 <= n < stack.len() && stack[n] == h.toplevel;
    lemma_found_among(s, hits::seen_on(s.workspaces, s.outputs), px, py, reach);
    let p = s.surfaces[h.toplevel].position;
    assert(exists|way: Seq<u32>| #[trigger]
        s.leads(h.toplevel, way) && h.surface == stop(h.toplevel, way, way.len() as int)
            && h.surface_x == p.0 + s.distance(h.toplevel, way).0 && h.surface_y == p.1
            + s.distance(h.toplevel, way).1) by {
        reveal(found_along);
    }
    let way = choose|way: Seq<u32>| #[trigger]
        s.leads(h.toplevel, way) && h.surface == stop(h.toplevel, way, way.len() as int)
            && h.surface_x == p.0 + s.distance(h.toplevel, way).0 && h.surface_y == p.1
            + s.distance(h.toplevel, way).1;
    law_a_surface_is_where_its_offsets_lead(s, h.toplevel, way, reach);
    law_every_part_of_a_window_is_drawn(s, id, cache, n, way, reach);
}

} // verus!

//! `wl_subcompositor` protocol handler.
//!
//! The subcompositor global lets clients create subsurfaces - child surfaces
//! positioned relative to a parent and composited together with it.

use crate::client::ObjectType;
use crate::objects::SurfaceView;
use crate::protocol::unknown_request;
use crate::state::{CompositorState, State};
use crate::table;
use crate::tree::{self, is_ancestor};
use crate::wire::{ArgReader, Request, WaylandProtocolMessageWithClientInfo};
use crate::workspace::ClientObjectId;
use vstd::prelude::*;

verus! {

// Request opcodes
pub const DESTROY: u16 = 0;

pub const GET_SUBSURFACE: u16 = 1;

/// `wl_subcompositor.error.bad_parent`
pub const ERROR_BAD_PARENT: u32 = 1;

impl State {
    /// The state once a surface hangs off another.
    pub open spec fn surface_linked(self, child: ClientObjectId, parent: ClientObjectId) -> Self {
        let s = if self.surfaces.contains_key(child) {
            self.surface_changed(
                child,
                SurfaceView { parent: Some(parent.1), ..self.surfaces[child] },
            )
        } else {
            self
        };
        if s.surfaces.contains_key(parent) {
            s.surface_changed(
                parent,
                SurfaceView {
                    children: s.surfaces[parent].children.push(child.1),
                    ..s.surfaces[parent]
                },
            )
        } else {
            s
        }
    }

    /// The state once a client has made a subsurface. A surface that is
    /// something else already cannot become one, and none can hang off what
    /// hangs off it.
    pub open spec fn subsurface_asked(self, r: Request) -> Self {
        match (r.word(0), r.word(4), r.word(8)) {
            (Some(id), Some(surface), Some(parent)) => {
                let child = (r.client, surface);
                if self.cursor_role_surfaces.contains(child) {
                    self.errored(
                        r.client,
                        r.object,
                        0,
                        "wl_subcompositor.get_subsurface: surface already has cursor role"@,
                    )
                } else if self.dnd_icon_surfaces.contains(child) {
                    self.errored(
                        r.client,
                        r.object,
                        0,
                        "wl_subcompositor.get_subsurface: surface already has drag icon role"@,
                    )
                } else if self.under_surface((r.client, parent), child) {
                    self.errored(
                        r.client,
                        r.object,
                        ERROR_BAD_PARENT,
                        "wl_subcompositor.get_subsurface: parent is a descendant of the surface"@,
                    )
                } else {
                    let s = self.registered_as(r, id, ObjectType::WlSubsurface);
                    if self.can_register(r.client, id) {
                        let s = s.surface_linked(child, (r.client, parent));
                        State {
                            subsurface_map: s.subsurface_map.insert((r.client, id), surface),
                            ..s
                        }
                    } else {
                        s
                    }
                }
            },
            _ => self.errored(
                r.client,
                r.object,
                0,
                "wl_subcompositor.get_subsurface: malformed args"@,
            ),
        }
    }

    /// The state once a `wl_subcompositor` request has been handled.
    pub open spec fn wl_subcompositor_handled(self, r: Request) -> Self {
        if r.op == DESTROY {
            self.unregistered(r.client, r.object)
        } else if r.op == GET_SUBSURFACE {
            self.subsurface_asked(r)
        } else {
            self.rejected(r, "wl_subcompositor"@)
        }
    }
}

pub fn handle(state: &mut CompositorState, msg: &WaylandProtocolMessageWithClientInfo)
    requires
        old(state).wf(),
    ensures
        final(state).wf(),
        final(state)@ == old(state)@.wl_subcompositor_handled(msg@),
{
    proof {
        reveal_strlit("wl_subcompositor");
    }
    match msg.message.op_code {
        DESTROY => state.unregister(msg.client_id, msg.message.object_id),
        GET_SUBSURFACE => handle_get_subsurface(state, msg),
        _ => unknown_request(state, msg, "wl_subcompositor"),
    }
}

/// Hang a surface off another that does not hang off it.
pub fn link_surface(state: &mut CompositorState, child: ClientObjectId, parent: ClientObjectId)
    requires
        old(state).wf(),
        child.0 == parent.0,
        !tree::hangs_off(tree::surface_links(old(state)@.surfaces), parent, child),
    ensures
        final(state).wf(),
        final(state)@ == old(state)@.surface_linked(child, parent),
{
    let ghost links = tree::surface_links(state@.surfaces);
    if let Some(surface) = state.surfaces.get_mut(child) {
        surface.parent = Some(parent.1);
    }
    proof {
        let after = tree::surface_links(state@.surfaces);
        if old(state)@.surfaces.contains_key(child) {
            tree::law_linking_closes_no_circle(links, child, parent);
            assert(after =~= links.insert(child, parent));
        } else {
            assert(after =~= links);
        }
    }
    let ghost linked = state@;
    if let Some(surface) = state.surfaces.get_mut(parent) {
        surface.children.push(child.1);
    }
    assert(tree::surface_links(state@.surfaces) =~= tree::surface_links(linked.surfaces));
}

fn handle_get_subsurface(state: &mut CompositorState, msg: &WaylandProtocolMessageWithClientInfo)
    requires
        old(state).wf(),
    ensures
        final(state).wf(),
        final(state)@ == old(state)@.subsurface_asked(msg@),
{
    let mut args = ArgReader::new(msg.message.args.as_slice());
    // get_subsurface args: new_id, object surface, object parent
    let (id, surface, parent) = (args.new_id(), args.u32(), args.u32());
    let (id, surface, parent): (u32, u32, u32) = match (id, surface, parent) {
        (Some(id), Some(surface), Some(parent)) => (id, surface, parent),
        _ => {
            proof {
                reveal_strlit("wl_subcompositor.get_subsurface: malformed args");
            }
            state.fail(
                msg.client_id,
                msg.message.object_id,
                0,
                "wl_subcompositor.get_subsurface: malformed args",
            );
            return ;
        },
    };
    let child = (msg.client_id, surface);
    let parent = (msg.client_id, parent);
    if state.cursor_role_surfaces.contains(child) {
        proof {
            reveal_strlit("wl_subcompositor.get_subsurface: surface already has cursor role");
        }
        state.fail(
            msg.client_id,
            msg.message.object_id,
            0,
            "wl_subcompositor.get_subsurface: surface already has cursor role",
        );
        return ;
    }
    if state.dnd_icon_surfaces.contains(child) {
        proof {
            reveal_strlit("wl_subcompositor.get_subsurface: surface already has drag icon role");
        }
        state.fail(
            msg.client_id,
            msg.message.object_id,
            0,
            "wl_subcompositor.get_subsurface: surface already has drag icon role",
        );
        return ;
    }
    // A surface may not end up its own ancestor. The tree is walked to find a
    // surface's global position and recursed to hit-test and compose it, so a
    // cycle is not a wrong answer but a hang or a blown stack - and it takes
    // every other client with it. Two requests is all it costs a client to
    // build one, so the check is here rather than left to the walkers.
    if is_ancestor(state, child, parent) {
        proof {
            reveal_strlit("wl_subcompositor.get_subsurface: parent is a descendant of the surface");
        }
        state.fail(
            msg.client_id,
            msg.message.object_id,
            ERROR_BAD_PARENT,
            "wl_subcompositor.get_subsurface: parent is a descendant of the surface",
        );
        return ;
    }
    // Register before touching any surface state: a rejected id must not leave
    // a half-built parent-child relationship behind.
    if !state.register_as(msg, id, ObjectType::WlSubsurface) {
        return ;
    }
    link_surface(state, child, parent);
    // Which surface the subsurface object controls
    state.subsurface_map.insert((msg.client_id, id), surface);
}

/// Where no surface hangs off itself, making a subsurface leaves none that does:
/// a surface asked to hang off itself, or off one that hangs off it, is refused,
/// the client disconnected, and nothing else changed.
pub proof fn law_subsurfaces_close_no_circle(
    s: State,
    r: Request,
    id: u32,
    surface: u32,
    parent: u32,
)
    requires
        s.knows(r.client),
        s.surfaces.dom().finite(),
        tree::forest(tree::surface_links(s.surfaces)),
        r.word(0) == Some(id),
        r.word(4) == Some(surface),
        r.word(8) == Some(parent),
        !s.cursor_role_surfaces.contains((r.client, surface)),
        !s.dnd_icon_surfaces.contains((r.client, surface)),
    ensures
        tree::forest(tree::surface_links(s.subsurface_asked(r).surfaces)),
        tree::hangs_off(
            tree::surface_links(s.surfaces),
            (r.client, parent),
            (r.client, surface),
        ) ==> {
            let after = s.subsurface_asked(r);
            &&& after == s.errored(
                r.client,
                r.object,
                ERROR_BAD_PARENT,
                "wl_subcompositor.get_subsurface: parent is a descendant of the surface"@,
            )
            &&& after.clients[r.client].cancelled
            &&& after.clients[r.client].objects == s.clients[r.client].objects
            &&& after.subsurface_map == s.subsurface_map
            &&& after.surfaces == s.surfaces
        },
{
    let links = tree::surface_links(s.surfaces);
    let child = (r.client, surface);
    let over = (r.client, parent);
    let places = table::ordered(s.surfaces.dom());
    table::lemma_finite_listed(s.surfaces.dom());
    tree::lemma_reaches_enough(links, places, over, child);
    let after = s.subsurface_asked(r);
    if !tree::hangs_off(links, over, child) {
        let told = s.registered_as(r, id, ObjectType::WlSubsurface);
        assert(told.surfaces == s.surfaces);
        if s.can_register(r.client, id) && s.surfaces.contains_key(child) {
            tree::law_linking_closes_no_circle(links, child, over);
            assert(tree::surface_links(after.surfaces) =~= links.insert(child, over));
        } else {
            assert(tree::surface_links(after.surfaces) =~= links);
        }
    }
}

} // verus!

//! `xdg_surface` protocol handler.
//!
//! An `xdg_surface` wraps a `wl_surface` and adds window-management semantics.
//! Clients assign a role (toplevel or popup) and must ack configure events
//! before committing content.

use crate::client::ObjectType;
use crate::focus::switch_focus;
use crate::objects::{SurfaceView, XdgSurfaceState};
use crate::protocol::wl_subcompositor::link_surface;
use crate::protocol::{malformed_request, unknown_request, xdg_popup, xdg_toplevel};
use crate::state::{CompositorState, State};
use crate::tree::{self, is_ancestor};
use crate::windows::{self, clamp_surface_offset};
use crate::wire::{self, tell1, ArgReader, Request, WaylandProtocolMessageWithClientInfo};
use crate::workspace::ClientObjectId;
use vstd::prelude::*;

verus! {

// Request opcodes
pub const DESTROY: u16 = 0;

pub const GET_TOPLEVEL: u16 = 1;

pub const GET_POPUP: u16 = 2;

pub const SET_WINDOW_GEOMETRY: u16 = 3;

pub const ACK_CONFIGURE: u16 = 4;

// Event opcodes
pub const CONFIGURE: u16 = 0;

impl State {
    /// The state once a client has been given a serial to acknowledge.
    pub open spec fn xdg_surface_configured(self, client_id: u32, xdg_surface_id: u32) -> Self {
        self.ticked().sent(client_id, wire::told1(xdg_surface_id, CONFIGURE, self.next_serial))
    }

    /// The state once a client has made a window of a surface. The window is
    /// told what there is to know before its first configure, and gets the
    /// focus.
    pub open spec fn toplevel_asked(self, r: Request) -> Self {
        match r.word(0) {
            Some(toplevel_id) => {
                let s = self.registered_as(r, toplevel_id, ObjectType::XdgToplevel);
                if self.can_register(r.client, toplevel_id) {
                    let s = s.toplevel_created(r.client, toplevel_id, r.object).capabilities_told(
                        r.client,
                        toplevel_id,
                    ).toplevel_configured((r.client, toplevel_id), 0, 0);
                    match s.surface_of_xdg(r.key()) {
                        Some(surface) => s.focus_switched(surface),
                        None => s,
                    }
                } else {
                    s
                }
            },
            None => self.errored(
                r.client,
                r.object,
                0,
                "xdg_surface.get_toplevel: malformed args"@,
            ),
        }
    }

    /// The state once a popup's surface hangs off its parent's. It does not if
    /// its parent's hangs off it.
    pub open spec fn surface_hung(
        self,
        child: ClientObjectId,
        parent: ClientObjectId,
        position: (i32, i32),
    ) -> Self {
        if self.under_surface(parent, child) {
            self
        } else {
            let s = self.surface_linked(child, parent);
            if s.surfaces.contains_key(child) {
                s.surface_changed(
                    child,
                    SurfaceView { subsurface_position: position, ..s.surfaces[child] },
                )
            } else {
                s
            }
        }
    }

    /// Where a popup goes, and how large.
    pub open spec fn popup_place(self, client_id: u32, parent_xdg: u32, positioner: u32) -> Option<
        (i32, i32, i32, i32),
    > {
        match self.surface_of_xdg((client_id, parent_xdg)) {
            Some(parent) => self.popup_placement((client_id, positioner), parent),
            None => None,
        }
    }

    /// The state once a client has made a popup of a surface.
    pub open spec fn popup_asked(self, r: Request) -> Self {
        match (r.word(0), r.word(4), r.word(8)) {
            (Some(popup_id), Some(parent_xdg), Some(positioner)) => {
                let (x, y, width, height) = match self.popup_place(
                    r.client,
                    parent_xdg,
                    positioner,
                ) {
                    Some(place) => place,
                    None => (0, 0, 1, 1),
                };
                let s = self.registered_as(r, popup_id, ObjectType::XdgPopup);
                if self.can_register(r.client, popup_id) {
                    let s = s.popup_created(
                        r.client,
                        popup_id,
                        r.object,
                        parent_xdg,
                        x,
                        y,
                        width,
                        height,
                    );
                    let s = match (
                        s.surface_of_xdg(r.key()),
                        s.surface_of_xdg((r.client, parent_xdg)),
                    ) {
                        (Some(child), Some(parent)) => s.surface_hung(
                            child,
                            parent,
                            windows::offset_held(x as int, y as int),
                        ),
                        _ => s,
                    };
                    s.popup_configured(
                        r.client,
                        popup_id,
                        x,
                        y,
                        width,
                        height,
                    ).xdg_surface_configured(r.client, r.object)
                } else {
                    s
                }
            },
            _ => self.errored(r.client, r.object, 0, "xdg_surface.get_popup: malformed args"@),
        }
    }

    /// The state once a client has said which part of a surface is the window.
    pub open spec fn geometry_set(self, r: Request) -> Self {
        match (r.signed(0), r.signed(4), r.signed(8), r.signed(12)) {
            (Some(x), Some(y), Some(w), Some(h)) => if self.xdg_surfaces.contains_key(r.key()) {
                State {
                    xdg_surfaces: self.xdg_surfaces.insert(
                        r.key(),
                        XdgSurfaceState {
                            geometry: Some((x, y, w, h)),
                            ..self.xdg_surfaces[r.key()]
                        },
                    ),
                    ..self
                }
            } else {
                self
            },
            _ => self.malformed(r, "xdg_surface"@),
        }
    }

    /// The state once a client has acknowledged a configure.
    pub open spec fn configure_acked(self, r: Request) -> Self {
        match r.word(0) {
            Some(_) => if self.xdg_surfaces.contains_key(r.key()) {
                State {
                    xdg_surfaces: self.xdg_surfaces.insert(
                        r.key(),
                        XdgSurfaceState { configured: true, ..self.xdg_surfaces[r.key()] },
                    ),
                    ..self
                }
            } else {
                self
            },
            None => self.malformed(r, "xdg_surface"@),
        }
    }

    /// The state once an `xdg_surface` request has been handled.
    pub open spec fn xdg_surface_handled(self, r: Request) -> Self {
        if r.op == DESTROY {
            self.xdg_surface_destroyed(r.client, r.object).unregistered(r.client, r.object)
        } else if r.op == GET_TOPLEVEL {
            self.toplevel_asked(r)
        } else if r.op == GET_POPUP {
            self.popup_asked(r)
        } else if r.op == SET_WINDOW_GEOMETRY {
            self.geometry_set(r)
        } else if r.op == ACK_CONFIGURE {
            self.configure_acked(r)
        } else {
            self.rejected(r, "xdg_surface"@)
        }
    }
}

pub fn handle(state: &mut CompositorState, msg: &WaylandProtocolMessageWithClientInfo)
    requires
        old(state).wf(),
    ensures
        final(state).wf(),
        final(state)@ == old(state)@.xdg_surface_handled(msg@),
{
    proof {
        reveal_strlit("xdg_surface");
    }
    match msg.message.op_code {
        DESTROY => {
            state.destroy_xdg_surface(msg.client_id, msg.message.object_id);
            state.unregister(msg.client_id, msg.message.object_id);
        },
        GET_TOPLEVEL => handle_get_toplevel(state, msg),
        GET_POPUP => handle_get_popup(state, msg),
        SET_WINDOW_GEOMETRY => handle_set_window_geometry(state, msg),
        ACK_CONFIGURE => handle_ack_configure(state, msg),
        _ => unknown_request(state, msg, "xdg_surface"),
    }
}

fn handle_get_toplevel(state: &mut CompositorState, msg: &WaylandProtocolMessageWithClientInfo)
    requires
        old(state).wf(),
    ensures
        final(state).wf(),
        final(state)@ == old(state)@.toplevel_asked(msg@),
{
    let mut args = ArgReader::new(msg.message.args.as_slice());
    let toplevel_id: u32 = match args.new_id() {
        Some(id) => id,
        None => {
            proof {
                reveal_strlit("xdg_surface.get_toplevel: malformed args");
            }
            state.fail(
                msg.client_id,
                msg.message.object_id,
                0,
                "xdg_surface.get_toplevel: malformed args",
            );
            return ;
        },
    };
    let client_id: u32 = msg.client_id;
    let xdg_surface_id: u32 = msg.message.object_id;
    // The xdg_surface's version, carried down. Without it the toplevel sits at
    // version 1 and every version-gated event on it - `wm_capabilities` and
    // `configure_bounds` - is silently suppressed.
    if !state.register_as(msg, toplevel_id, ObjectType::XdgToplevel) {
        return ;
    }
    state.create_xdg_toplevel(client_id, toplevel_id, xdg_surface_id);
    // Before the first configure: the client decides what chrome to draw off the
    // back of it, and a configure it has already acted on is too late.
    xdg_toplevel::send_wm_capabilities(state, client_id, toplevel_id);
    // The initial configure. A zero size leaves the client to pick its own,
    // which is what it is for on a window that has never been mapped; the
    // bounds that go out with it say how much room there is to pick within.
    xdg_toplevel::configure(state, (client_id, toplevel_id), 0, 0);
    // Take focus on the new toplevel
    if let Some(surface) = state.surface_of_xdg((client_id, xdg_surface_id)) {
        switch_focus(state, surface);
    }
}

/// Hang a popup's surface off its parent's, unless its parent's hangs off it.
fn hang_surface(
    state: &mut CompositorState,
    child: ClientObjectId,
    parent: ClientObjectId,
    position: (i32, i32),
)
    requires
        old(state).wf(),
        child.0 == parent.0,
    ensures
        final(state).wf(),
        final(state)@ == old(state)@.surface_hung(child, parent, position),
{
    if is_ancestor(state, child, parent) {
        return ;
    }
    link_surface(state, child, parent);
    let ghost linked = state@;
    if let Some(surface) = state.surfaces.get_mut(child) {
        surface.subsurface_position = position;
    }
    assert(tree::surface_links(state@.surfaces) =~= tree::surface_links(linked.surfaces));
}

fn handle_get_popup(state: &mut CompositorState, msg: &WaylandProtocolMessageWithClientInfo)
    requires
        old(state).wf(),
    ensures
        final(state).wf(),
        final(state)@ == old(state)@.popup_asked(msg@),
{
    let mut args = ArgReader::new(msg.message.args.as_slice());
    // get_popup args: new_id popup, object parent (xdg_surface), object positioner
    let (popup_id, parent_xdg, positioner_id) = (args.new_id(), args.u32(), args.u32());
    let (popup_id, parent_xdg, positioner_id): (u32, u32, u32) = match (
        popup_id,
        parent_xdg,
        positioner_id,
    ) {
        (Some(popup_id), Some(parent_xdg), Some(positioner_id)) => (
            popup_id,
            parent_xdg,
            positioner_id,
        ),
        _ => {
            proof {
                reveal_strlit("xdg_surface.get_popup: malformed args");
            }
            state.fail(
                msg.client_id,
                msg.message.object_id,
                0,
                "xdg_surface.get_popup: malformed args",
            );
            return ;
        },
    };
    let xdg_surface_id: u32 = msg.message.object_id;
    let client_id: u32 = msg.client_id;
    // Position from the positioner, kept on screen where the client asked for
    // that. Needs the parent's `wl_surface` because the constraining region is
    // the parent's output expressed relative to the parent.
    let place = match state.surface_of_xdg((client_id, parent_xdg)) {
        Some(parent) => state.place_popup((client_id, positioner_id), parent),
        None => None,
    };
    let (x, y, width, height): (i32, i32, i32, i32) = match place {
        Some(place) => place,
        None => (0, 0, 1, 1),
    };
    // Carried down for the same reason as a toplevel's: `repositioned` is
    // gated on version 3, and a popup left at version 1 would never get one.
    if !state.register_as(msg, popup_id, ObjectType::XdgPopup) {
        return ;
    }
    state.create_xdg_popup(
        client_id,
        popup_id,
        xdg_surface_id,
        parent_xdg,
        x,
        y,
        width,
        height,
    );
    // Parent the popup's wl_surface under the parent's wl_surface
    if let (Some(child), Some(parent)) = (
        state.surface_of_xdg((client_id, xdg_surface_id)),
        state.surface_of_xdg((client_id, parent_xdg)),
    ) {
        let position: (i32, i32) = clamp_surface_offset(x, y);
        hang_surface(state, child, parent, position);
    }
    // Send xdg_popup.configure with the computed position
    xdg_popup::send_configure(state, client_id, popup_id, x, y, width, height);
    // Send xdg_surface.configure with a serial the client must ack
    configure(state, client_id, xdg_surface_id);
}

fn handle_set_window_geometry(
    state: &mut CompositorState,
    msg: &WaylandProtocolMessageWithClientInfo,
)
    requires
        old(state).wf(),
    ensures
        final(state).wf(),
        final(state)@ == old(state)@.geometry_set(msg@),
{
    proof {
        reveal_strlit("xdg_surface");
    }
    let mut args = ArgReader::new(msg.message.args.as_slice());
    let (x, y, w, h) = (args.i32(), args.i32(), args.i32(), args.i32());
    match (x, y, w, h) {
        (Some(x), Some(y), Some(w), Some(h)) => {
            if let Some(xdg) = state.xdg_surfaces.get_mut((msg.client_id, msg.message.object_id)) {
                xdg.geometry = Some((x, y, w, h));
            }
        },
        _ => malformed_request(state, msg, "xdg_surface"),
    }
}

fn handle_ack_configure(state: &mut CompositorState, msg: &WaylandProtocolMessageWithClientInfo)
    requires
        old(state).wf(),
    ensures
        final(state).wf(),
        final(state)@ == old(state)@.configure_acked(msg@),
{
    proof {
        reveal_strlit("xdg_surface");
    }
    let mut args = ArgReader::new(msg.message.args.as_slice());
    match args.u32() {
        Some(_) => {
            if let Some(xdg) = state.xdg_surfaces.get_mut((msg.client_id, msg.message.object_id)) {
                xdg.configured = true;
            }
        },
        None => malformed_request(state, msg, "xdg_surface"),
    }
}

/// Send an `xdg_surface.configure` event with a serial of its own.
pub fn configure(state: &mut CompositorState, client_id: u32, xdg_surface_id: u32)
    requires
        old(state).wf(),
    ensures
        final(state).wf(),
        final(state)@ == old(state)@.xdg_surface_configured(client_id, xdg_surface_id),
{
    let serial: u32 = state.next_serial();
    send_configure(state, client_id, xdg_surface_id, serial);
}

/// Send an `xdg_surface.configure` event.
pub fn send_configure(
    state: &mut CompositorState,
    client_id: u32,
    xdg_surface_id: u32,
    serial: u32,
)
    requires
        old(state).wf(),
    ensures
        final(state).wf(),
        final(state)@ == old(state)@.sent(client_id, wire::told1(xdg_surface_id, CONFIGURE, serial)),
{
    state.send(client_id, tell1(xdg_surface_id, CONFIGURE, serial));
}

} // verus!

//! `xdg_popup` protocol handler.
//!
//! A popup is a short-lived surface (menu, tooltip, combo-box) positioned
//! relative to a parent `xdg_surface` using an `xdg_positioner`. The compositor
//! sends configure events with the computed position and size.

use crate::objects::{self, remove_id, SurfaceView, XdgPopupState};
use crate::protocol::{acknowledge, malformed_request, unknown_request, xdg_surface};
use crate::state::{CompositorState, State};
use crate::tree;
use crate::windows::{self, clamp_surface_offset};
use crate::wire::{self, tell0, tell1, tell4, ArgReader, Request, WaylandProtocolMessageWithClientInfo};
use crate::workspace::{self, retain_other, ClientObjectId};
use vstd::prelude::*;

verus! {

// Request opcodes
pub const DESTROY: u16 = 0;

pub const GRAB: u16 = 1;

pub const REPOSITION: u16 = 2;

// Event opcodes
pub const CONFIGURE: u16 = 0;

pub const POPUP_DONE: u16 = 1;

pub const REPOSITIONED: u16 = 2;

/// The version at which `reposition` and `repositioned` appear.
pub const REPOSITION_SINCE: u32 = 3;

impl State {
    /// The state once a client has been told where its popup is.
    pub open spec fn popup_configured(
        self,
        client_id: u32,
        popup_id: u32,
        x: i32,
        y: i32,
        width: i32,
        height: i32,
    ) -> Self {
        self.sent(
            client_id,
            wire::told4(
                popup_id,
                CONFIGURE,
                wire::signed_word(x),
                wire::signed_word(y),
                wire::signed_word(width),
                wire::signed_word(height),
            ),
        )
    }

    /// The state once a client has been told its popup is dismissed.
    pub open spec fn popup_done_told(self, client_id: u32, popup_id: u32) -> Self {
        self.sent(client_id, wire::told0(popup_id, POPUP_DONE))
    }

    /// The state once a client knows which request an answer belongs to.
    pub open spec fn repositioned_told(self, client_id: u32, popup_id: u32, token: u32) -> Self {
        if self.speaks(client_id, popup_id, REPOSITION_SINCE) {
            self.sent(client_id, wire::told1(popup_id, REPOSITIONED, token))
        } else {
            self
        }
    }

    /// The state once a surface hangs off nothing.
    pub open spec fn surface_unhung(self, child: ClientObjectId) -> Self {
        if self.surfaces.contains_key(child) {
            let s = match self.surfaces[child].parent {
                Some(id) if self.surfaces.contains_key((child.0, id)) => {
                    let parent = (child.0, id);
                    State {
                        surfaces: self.surfaces.insert(
                            parent,
                            SurfaceView {
                                children: self.surfaces[parent].children.filter(
                                    objects::other_id(child.1),
                                ),
                                ..self.surfaces[parent]
                            },
                        ),
                        ..self
                    }
                },
                _ => self,
            };
            State {
                surfaces: s.surfaces.insert(
                    child,
                    SurfaceView { parent: None, ..s.surfaces[child] },
                ),
                ..s
            }
        } else {
            self
        }
    }

    /// The surface a popup is made of.
    pub open spec fn surface_of_popup(self, popup: ClientObjectId) -> Option<ClientObjectId> {
        if self.xdg_popups.contains_key(popup) {
            self.surface_of_xdg((popup.0, self.xdg_popups[popup].xdg_surface_id))
        } else {
            None
        }
    }

    /// The state once a client has destroyed a popup.
    pub open spec fn popup_dropped(self, r: Request) -> Self {
        let s = match self.surface_of_popup(r.key()) {
            Some(surface) => self.surface_unhung(surface),
            None => self,
        };
        State { grabbed_popups: workspace::stack_without(s.grabbed_popups, r.key()), ..s }
            .popup_destroyed(r.client, r.object)
            .unregistered(r.client, r.object)
    }

    /// The state once a popup is where a positioner puts it, and its client has
    /// been told.
    pub open spec fn popup_moved(
        self,
        key: ClientObjectId,
        place: (i32, i32, i32, i32),
        token: u32,
    ) -> Self {
        let popup = self.xdg_popups[key];
        let (x, y, width, height) = place;
        let s = State {
            xdg_popups: self.xdg_popups.insert(
                key,
                XdgPopupState { x, y, width, height, ..popup },
            ),
            ..self
        };
        let s = match s.surface_of_xdg((key.0, popup.xdg_surface_id)) {
            Some(surface) if s.surfaces.contains_key(surface) => State {
                surfaces: s.surfaces.insert(
                    surface,
                    SurfaceView {
                        subsurface_position: windows::offset_held(x as int, y as int),
                        ..s.surfaces[surface]
                    },
                ),
                ..s
            },
            _ => s,
        };
        s.repositioned_told(key.0, key.1, token).popup_configured(
            key.0,
            key.1,
            x,
            y,
            width,
            height,
        ).xdg_surface_configured(key.0, popup.xdg_surface_id).dirtied()
    }

    /// The state once a client has asked for a popup to be put elsewhere.
    pub open spec fn reposition_asked(self, r: Request) -> Self {
        let key = r.key();
        match (r.word(0), r.word(4)) {
            (Some(positioner), Some(token)) => if self.xdg_popups.contains_key(key) {
                match self.popup_place(
                    r.client,
                    self.xdg_popups[key].parent_xdg_surface_id,
                    positioner,
                ) {
                    Some(place) => self.popup_moved(key, place, token),
                    None => self,
                }
            } else {
                self
            },
            _ => self.malformed(r, "xdg_popup"@),
        }
    }

    /// The state once a popup is the newest to have asked for the pointer. Which
    /// seat it asks with which serial does not matter, but has to be said.
    pub open spec fn popup_grabbed(self, r: Request) -> Self {
        if r.args.len() < 8 {
            self.malformed(r, "xdg_popup"@)
        } else {
            State { grabbed_popups: self.grabbed_popups.push(r.key()), ..self }
        }
    }

    /// The state once an `xdg_popup` request has been handled.
    pub open spec fn xdg_popup_handled(self, r: Request) -> Self {
        if r.op == DESTROY {
            self.popup_dropped(r)
        } else if r.op == GRAB {
            self.popup_grabbed(r)
        } else if r.op == REPOSITION {
            self.reposition_asked(r)
        } else {
            self.rejected(r, "xdg_popup"@)
        }
    }
}

pub fn handle(state: &mut CompositorState, msg: &WaylandProtocolMessageWithClientInfo)
    requires
        old(state).wf(),
    ensures
        final(state).wf(),
        final(state)@ == old(state)@.xdg_popup_handled(msg@),
{
    proof {
        reveal_strlit("xdg_popup");
    }
    match msg.message.op_code {
        DESTROY => handle_destroy(state, msg),
        GRAB => {
            if acknowledge(state, msg, 2, "xdg_popup") {
                state.grabbed_popups.push((msg.client_id, msg.message.object_id));
            }
        },
        REPOSITION => handle_reposition(state, msg),
        _ => unknown_request(state, msg, "xdg_popup"),
    }
}

/// Hang a surface off nothing.
pub fn unhang_surface(state: &mut CompositorState, child: ClientObjectId)
    requires
        old(state).wf(),
    ensures
        final(state).wf(),
        final(state)@ == old(state)@.surface_unhung(child),
{
    let parent: Option<u32> = match state.surfaces.get(child) {
        Some(surface) => surface.parent,
        None => {
            return ;
        },
    };
    if let Some(id) = parent {
        if let Some(surface) = state.surfaces.get_mut((child.0, id)) {
            remove_id(&mut surface.children, child.1);
        }
    }
    if let Some(surface) = state.surfaces.get_mut(child) {
        surface.parent = None;
    }
    proof {
        tree::lemma_forest_kept(
            tree::surface_links(old(state)@.surfaces),
            tree::surface_links(state@.surfaces),
        );
    }
}

fn handle_destroy(state: &mut CompositorState, msg: &WaylandProtocolMessageWithClientInfo)
    requires
        old(state).wf(),
    ensures
        final(state).wf(),
        final(state)@ == old(state)@.popup_dropped(msg@),
{
    let key = (msg.client_id, msg.message.object_id);
    let surface = match state.xdg_popups.get(key) {
        Some(popup) => state.surface_of_xdg((msg.client_id, popup.xdg_surface_id)),
        None => None,
    };
    if let Some(surface) = surface {
        unhang_surface(state, surface);
    }
    retain_other(&mut state.grabbed_popups, key);
    state.destroy_xdg_popup(msg.client_id, msg.message.object_id);
    state.unregister(msg.client_id, msg.message.object_id);
}

/// Send `xdg_popup.configure` event with the computed position and size.
pub fn send_configure(
    state: &mut CompositorState,
    client_id: u32,
    popup_id: u32,
    x: i32,
    y: i32,
    width: i32,
    height: i32,
)
    requires
        old(state).wf(),
    ensures
        final(state).wf(),
        final(state)@ == old(state)@.popup_configured(client_id, popup_id, x, y, width, height),
{
    state.send(
        client_id,
        tell4(popup_id, CONFIGURE, x as u32, y as u32, width as u32, height as u32),
    );
}

/// Send `xdg_popup.popup_done` to dismiss the popup.
pub fn send_popup_done(state: &mut CompositorState, client_id: u32, popup_id: u32)
    requires
        old(state).wf(),
    ensures
        final(state).wf(),
        final(state)@ == old(state)@.popup_done_told(client_id, popup_id),
{
    state.send(client_id, tell0(popup_id, POPUP_DONE));
}

/// Move a popup that is already on screen to wherever a new positioner puts it.
///
/// The token is the client's, and comes back untouched in `repositioned`: it is
/// how a client that has asked more than once tells which answer belongs to
/// which request. That event goes first, then the new geometry, then the
/// `xdg_surface.configure` that makes the pair take effect - a client acting on
/// the geometry before it knows which request produced it would be guessing.
fn handle_reposition(state: &mut CompositorState, msg: &WaylandProtocolMessageWithClientInfo)
    requires
        old(state).wf(),
    ensures
        final(state).wf(),
        final(state)@ == old(state)@.reposition_asked(msg@),
{
    proof {
        reveal_strlit("xdg_popup");
    }
    let mut args = ArgReader::new(msg.message.args.as_slice());
    let (positioner_id, token) = (args.u32(), args.u32());
    let (positioner_id, token): (u32, u32) = match (positioner_id, token) {
        (Some(positioner_id), Some(token)) => (positioner_id, token),
        _ => {
            malformed_request(state, msg, "xdg_popup");
            return ;
        },
    };
    let client_id: u32 = msg.client_id;
    let popup_id: u32 = msg.message.object_id;
    let key = (client_id, popup_id);
    let (xdg_surface_id, parent_xdg): (u32, u32) = match state.xdg_popups.get(key) {
        Some(popup) => (popup.xdg_surface_id, popup.parent_xdg_surface_id),
        None => {
            return ;
        },
    };
    let place = match state.surface_of_xdg((client_id, parent_xdg)) {
        Some(parent) => state.place_popup((client_id, positioner_id), parent),
        None => None,
    };
    let place: (i32, i32, i32, i32) = match place {
        Some(place) => place,
        None => {
            return ;
        },
    };
    move_popup(state, key, xdg_surface_id, place, token);
}

/// Put a popup somewhere else, and tell its client.
fn move_popup(
    state: &mut CompositorState,
    key: ClientObjectId,
    xdg_surface_id: u32,
    place: (i32, i32, i32, i32),
    token: u32,
)
    requires
        old(state).wf(),
        old(state)@.xdg_popups.contains_key(key),
        old(state)@.xdg_popups[key].xdg_surface_id == xdg_surface_id,
    ensures
        final(state).wf(),
        final(state)@ == old(state)@.popup_moved(key, place, token),
{
    let (x, y, width, height): (i32, i32, i32, i32) = place;
    if let Some(popup) = state.xdg_popups.get_mut(key) {
        popup.x = x;
        popup.y = y;
        popup.width = width;
        popup.height = height;
    }
    // The popup's `wl_surface` hangs off its parent as a child, so its position
    // is the offset within that parent rather than anything global.
    if let Some(surface) = state.surface_of_xdg((key.0, xdg_surface_id)) {
        let position: (i32, i32) = clamp_surface_offset(x, y);
        if let Some(surface) = state.surfaces.get_mut(surface) {
            surface.subsurface_position = position;
        }
    }
    assert(tree::surface_links(state@.surfaces) =~= tree::surface_links(old(state)@.surfaces));
    send_repositioned(state, key.0, key.1, token);
    send_configure(state, key.0, key.1, x, y, width, height);
    xdg_surface::configure(state, key.0, xdg_surface_id);
    state.dirty = true;
}

/// Send `xdg_popup.repositioned`, naming which reposition request this answers.
fn send_repositioned(state: &mut CompositorState, client_id: u32, popup_id: u32, token: u32)
    requires
        old(state).wf(),
    ensures
        final(state).wf(),
        final(state)@ == old(state)@.repositioned_told(client_id, popup_id, token),
{
    if state.speaks(client_id, popup_id, REPOSITION_SINCE) {
        state.send(client_id, tell1(popup_id, REPOSITIONED, token));
    }
}

} // verus!

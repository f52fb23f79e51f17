//! Making and unmaking surfaces, regions, windows, popups and viewports, and
//! what is left when a client goes.

use crate::objects::{
    self, release_client, Region, RegionView, Surface, SurfaceView, ViewportState,
    XdgPopupState, XdgRole, XdgSurfaceState, XdgToplevelState, XdgToplevelView,
};
use crate::positioner::{self, place, XdgPositionerState};
use crate::protocol::zwp_linux_buffer_params;
use crate::seqs;
use crate::state::{self, CompositorState, State};
use crate::table;
use crate::tree::{self, root_surface, surface_global_position};
use crate::windows::find_output;
use crate::workspace::{self, retain_other_clients, ClientObjectId, WorkspacesView};
use vstd::prelude::*;

verus! {

/// A dialog of a window.
pub open spec fn dialog_of(
    toplevels: Map<ClientObjectId, XdgToplevelView>,
    window: ClientObjectId,
) -> spec_fn(ClientObjectId) -> bool {
    |k: ClientObjectId| k.0 == window.0 && toplevels[k].parent == Some(window.1)
}

/// Retire one source, without a word to its client.
pub open spec fn retiring() -> spec_fn(State, ClientObjectId) -> State {
    |s: State, source: ClientObjectId| s.source_retired(source, false)
}

/// Destroy one buffer.
pub open spec fn destroying_buffer() -> spec_fn(State, ClientObjectId) -> State {
    |s: State, key: ClientObjectId| s.buffer_destroyed(key.0, key.1)
}

/// Destroy one pool.
pub open spec fn destroying_pool() -> spec_fn(State, ClientObjectId) -> State {
    |s: State, key: ClientObjectId| s.pool_destroyed(key.0, key.1)
}

/// A finger that is on a surface of somebody else.
pub open spec fn touching_others(points: Map<i32, ClientObjectId>, client_id: u32) -> Map<
    i32,
    ClientObjectId,
> {
    points.restrict(points.dom().filter(|id: i32| points[id].0 != client_id))
}

impl State {
    /// The state with a surface.
    pub open spec fn surface_created(self, client_id: u32, surface_id: u32) -> Self {
        State {
            surfaces: self.surfaces.insert(
                (client_id, surface_id),
                SurfaceView::fresh(client_id),
            ),
            ..self
        }
    }

    /// The state once a surface is gone. A drag that started on it comes to
    /// nothing.
    pub open spec fn surface_destroyed(self, client_id: u32, surface_id: u32) -> Self {
        let key = (client_id, surface_id);
        let s = if self.drag matches Some(d) && d.origin == key {
            self.drag_cancelled(true)
        } else {
            self
        };
        State { surfaces: s.surfaces.remove(key), ..s }
    }

    /// The state with a region.
    pub open spec fn region_created(self, client_id: u32, region_id: u32) -> Self {
        State {
            regions: self.regions.insert(
                (client_id, region_id),
                RegionView { client_id, rects: Seq::empty() },
            ),
            ..self
        }
    }

    /// The state once a region is gone.
    pub open spec fn region_destroyed(self, client_id: u32, region_id: u32) -> Self {
        State { regions: self.regions.remove((client_id, region_id)), ..self }
    }

    /// The state with a surface wrapped.
    pub open spec fn xdg_surface_created(
        self,
        client_id: u32,
        xdg_surface_id: u32,
        wl_surface_id: u32,
    ) -> Self {
        State {
            xdg_surfaces: self.xdg_surfaces.insert(
                (client_id, xdg_surface_id),
                XdgSurfaceState {
                    client_id,
                    wl_surface_id,
                    role: None,
                    configured: false,
                    geometry: None,
                },
            ),
            ..self
        }
    }

    /// The state once a surface is no longer wrapped.
    pub open spec fn xdg_surface_destroyed(self, client_id: u32, xdg_surface_id: u32) -> Self {
        State { xdg_surfaces: self.xdg_surfaces.remove((client_id, xdg_surface_id)), ..self }
    }

    /// The state with a window, on top of the workspace showing on its output.
    pub open spec fn toplevel_created(
        self,
        client_id: u32,
        toplevel_id: u32,
        xdg_surface_id: u32,
    ) -> Self {
        let xdg = (client_id, xdg_surface_id);
        let s = State {
            xdg_toplevels: self.xdg_toplevels.insert(
                (client_id, toplevel_id),
                XdgToplevelView::fresh(client_id, xdg_surface_id),
            ),
            ..self
        };
        if s.xdg_surfaces.contains_key(xdg) {
            State {
                xdg_surfaces: s.xdg_surfaces.insert(
                    xdg,
                    XdgSurfaceState {
                        role: Some(XdgRole::Toplevel(toplevel_id)),
                        ..s.xdg_surfaces[xdg]
                    },
                ),
                ..s
            }.homed((client_id, s.xdg_surfaces[xdg].wl_surface_id)).dirtied()
        } else {
            s
        }
    }

    /// The state once a window is gone.
    pub open spec fn toplevel_destroyed(self, client_id: u32, toplevel_id: u32) -> Self {
        let key = (client_id, toplevel_id);
        if self.xdg_toplevels.contains_key(key) {
            let s = State { xdg_toplevels: self.xdg_toplevels.remove(key), ..self };
            match s.surface_of_xdg((client_id, self.xdg_toplevels[key].xdg_surface_id)) {
                Some(surface) => State {
                    workspaces: s.workspaces.removed(surface),
                    focused_surface: if s.focused_surface == Some(surface) {
                        None
                    } else {
                        s.focused_surface
                    },
                    ..s
                }.dirtied(),
                None => s,
            }
        } else {
            self
        }
    }

    /// The state with a popup.
    pub open spec fn popup_created(
        self,
        client_id: u32,
        popup_id: u32,
        xdg_surface_id: u32,
        parent_xdg_surface_id: u32,
        x: i32,
        y: i32,
        width: i32,
        height: i32,
    ) -> Self {
        let xdg = (client_id, xdg_surface_id);
        let s = State {
            xdg_popups: self.xdg_popups.insert(
                (client_id, popup_id),
                XdgPopupState {
                    client_id,
                    xdg_surface_id,
                    parent_xdg_surface_id,
                    x,
                    y,
                    width,
                    height,
                },
            ),
            ..self
        };
        if s.xdg_surfaces.contains_key(xdg) {
            State {
                xdg_surfaces: s.xdg_surfaces.insert(
                    xdg,
                    XdgSurfaceState {
                        role: Some(XdgRole::Popup(popup_id)),
                        ..s.xdg_surfaces[xdg]
                    },
                ),
                ..s
            }
        } else {
            s
        }
    }

    /// The state once a popup is gone.
    pub open spec fn popup_destroyed(self, client_id: u32, popup_id: u32) -> Self {
        State { xdg_popups: self.xdg_popups.remove((client_id, popup_id)), ..self }
    }

    /// The state with a positioner.
    pub open spec fn positioner_created(self, client_id: u32, positioner_id: u32) -> Self {
        State {
            xdg_positioners: self.xdg_positioners.insert(
                (client_id, positioner_id),
                XdgPositionerState::fresh(client_id),
            ),
            ..self
        }
    }

    /// The state once a positioner is gone.
    pub open spec fn positioner_destroyed(self, client_id: u32, positioner_id: u32) -> Self {
        State { xdg_positioners: self.xdg_positioners.remove((client_id, positioner_id)), ..self }
    }

    /// The state with a viewport on a surface.
    pub open spec fn viewport_created(
        self,
        client_id: u32,
        viewport_id: u32,
        surface_id: u32,
    ) -> Self {
        State {
            viewports: self.viewports.insert(
                (client_id, viewport_id),
                ViewportState {
                    client_id,
                    surface_id,
                    source: None,
                    destination: None,
                    pending_source: None,
                    pending_destination: None,
                },
            ),
            surface_viewport: self.surface_viewport.insert((client_id, surface_id), viewport_id),
            ..self
        }
    }

    /// The state once a viewport is gone.
    pub open spec fn viewport_destroyed(self, client_id: u32, viewport_id: u32) -> Self {
        let key = (client_id, viewport_id);
        if self.viewports.contains_key(key) {
            State {
                viewports: self.viewports.remove(key),
                surface_viewport: self.surface_viewport.remove(
                    (client_id, self.viewports[key].surface_id),
                ),
                ..self
            }
        } else {
            self
        }
    }

    /// The dialogs of a window, in order.
    pub open spec fn dialogs_of(self, window: ClientObjectId) -> Seq<ClientObjectId> {
        table::ordered(self.xdg_toplevels.dom()).filter(dialog_of(self.xdg_toplevels, window))
    }

    /// The workspaces once a window has been raised.
    pub open spec fn window_raised(self, w: WorkspacesView, window: ClientObjectId) -> WorkspacesView {
        match self.surface_of_toplevel(window) {
            Some(surface) => w.raised(surface),
            None => w,
        }
    }

    /// The workspaces once everything a window belongs to has been raised, the
    /// outermost first.
    pub open spec fn owners_raised(
        self,
        w: WorkspacesView,
        window: ClientObjectId,
        steps: nat,
    ) -> WorkspacesView
        decreases steps,
    {
        let links = tree::toplevel_links(self.xdg_toplevels);
        if steps > 0 && links.contains_key(window) {
            self.window_raised(
                self.owners_raised(w, links[window], (steps - 1) as nat),
                links[window],
            )
        } else {
            w
        }
    }

    /// The workspaces once a window has been raised, and then its dialogs.
    pub open spec fn family_raised(
        self,
        w: WorkspacesView,
        window: ClientObjectId,
        steps: nat,
    ) -> WorkspacesView
        decreases steps, 0nat,
    {
        let w = self.window_raised(w, window);
        if steps > 0 {
            self.families_raised(w, self.dialogs_of(window), (steps - 1) as nat)
        } else {
            w
        }
    }

    /// The workspaces once several windows have been raised, each with its
    /// dialogs.
    pub open spec fn families_raised(
        self,
        w: WorkspacesView,
        windows: Seq<ClientObjectId>,
        steps: nat,
    ) -> WorkspacesView
        decreases steps, windows.len(),
    {
        if windows.len() == 0 {
            w
        } else {
            self.family_raised(
                self.families_raised(w, windows.drop_last(), steps),
                windows.last(),
                steps,
            )
        }
    }

    /// The state once a window has been raised: above what it belongs to, and
    /// below its dialogs.
    pub open spec fn raised_with_children(self, window: ClientObjectId) -> Self {
        let n = self.toplevel_count();
        State {
            workspaces: self.family_raised(
                self.owners_raised(self.workspaces, window, n),
                window,
                n,
            ),
            ..self
        }.dirtied()
    }

    /// The room a popup has, relative to the surface it hangs off.
    pub open spec fn popup_room(self, parent: ClientObjectId) -> Option<(i32, i32, i32, i32)> {
        match self.workspaces.output_of(self.root_of(parent)) {
            Some(id) => match self.output(id) {
                Some(o) => Some(
                    (
                        objects::saturated(o.x - self.global_position(parent).0),
                        objects::saturated(o.y - self.global_position(parent).1),
                        o.width,
                        o.height,
                    ),
                ),
                None => None,
            },
            None => None,
        }
    }

    /// Where a positioner puts a popup, and how large.
    pub open spec fn popup_placement(
        self,
        key: ClientObjectId,
        parent: ClientObjectId,
    ) -> Option<(i32, i32, i32, i32)> {
        if self.xdg_positioners.contains_key(key) {
            Some(positioner::placement(self.xdg_positioners[key], self.popup_room(parent)))
        } else {
            None
        }
    }

    /// The state once a client has nothing to do with any drag.
    pub open spec fn drag_without(self, client_id: u32) -> Self {
        match self.drag {
            Some(d) => if d.origin_client == client_id {
                self.drag_cancelled(true)
            } else if d.focus matches Some(f) && f.0 == client_id {
                self.drag_unfocused()
            } else {
                self
            },
            None => self,
        }
    }

    /// The state once a client offers nothing, and nothing is offered to it.
    pub open spec fn transfers_without(self, client_id: u32) -> Self {
        let s = self.drag_without(client_id);
        let s = state::each(s, table::client_keys(s.data_sources.dom(), client_id), retiring());
        State { data_offers: table::without_client(s.data_offers, client_id), ..s }
    }

    /// The state once a client has no buffers, no pools, and no buffers under
    /// construction.
    pub open spec fn memory_without(self, client_id: u32) -> Self {
        let s = self.imports_cancelled(client_id, None);
        let s = state::each(
            s,
            table::client_keys(s.dmabuf_params.dom(), client_id),
            zwp_linux_buffer_params::removing_params(),
        );
        let s = state::each(
            s,
            table::client_keys(s.buffers.dom(), client_id),
            destroying_buffer(),
        );
        state::each(s, table::client_keys(s.shm_pools.dom(), client_id), destroying_pool())
    }

    /// The state once everything of a client's is gone.
    pub open spec fn client_forgotten(self, client_id: u32) -> Self {
        let s = self.transfers_without(client_id).memory_without(client_id);
        State {
            buffer_guards: table::without_client(s.buffer_guards, client_id),
            releasing_buffers: table::keys_of_others(s.releasing_buffers, client_id),
            surfaces: table::without_client(s.surfaces, client_id),
            regions: table::without_client(s.regions, client_id),
            xdg_toplevels: table::without_client(s.xdg_toplevels, client_id),
            xdg_popups: table::without_client(s.xdg_popups, client_id),
            xdg_surfaces: table::without_client(s.xdg_surfaces, client_id),
            xdg_positioners: table::without_client(s.xdg_positioners, client_id),
            viewports: table::without_client(s.viewports, client_id),
            surface_viewport: table::without_client(s.surface_viewport, client_id),
            pointers: s.pointers.filter(objects::not_of(client_id)),
            keyboards: s.keyboards.filter(objects::not_of(client_id)),
            touches: s.touches.filter(objects::not_of(client_id)),
            data_devices: s.data_devices.filter(objects::not_of(client_id)),
            output_bindings: table::without_client(s.output_bindings, client_id),
            cursor_surfaces: s.cursor_surfaces.remove(client_id),
            pointer_enter_serial: s.pointer_enter_serial.remove(client_id),
            cursor_role_surfaces: table::keys_of_others(s.cursor_role_surfaces, client_id),
            dnd_icon_surfaces: table::keys_of_others(s.dnd_icon_surfaces, client_id),
            subsurface_map: table::without_client(s.subsurface_map, client_id),
            grabbed_popups: workspace::stack_without_client(s.grabbed_popups, client_id),
            last_button_serial: s.last_button_serial.remove(client_id),
            input_serials: s.input_serials.remove(client_id),
            touch_points: touching_others(s.touch_points, client_id),
            pointer_grab: match s.pointer_grab {
                Some(g) if g.surface.0 == client_id => None,
                g => g,
            },
            workspaces: s.workspaces.client_removed(client_id),
            buffers_pending_release: workspace::stack_without_client(
                s.buffers_pending_release,
                client_id,
            ),
            focused_surface: match s.focused_surface {
                Some(f) if f.0 == client_id => None,
                f => f,
            },
            ..s
        }
    }
}

impl CompositorState {
    /// Make a surface.
    pub fn create_surface(&mut self, client_id: u32, surface_id: u32)
        requires
            old(self).wf(),
        ensures
            final(self).wf(),
            final(self)@ == old(self)@.surface_created(client_id, surface_id),
    {
        self.surfaces.insert((client_id, surface_id), Surface::new(client_id));
        proof {
            tree::lemma_forest_kept(
                tree::surface_links(old(self)@.surfaces),
                tree::surface_links(self@.surfaces),
            );
        }
    }

    /// Unmake a surface.
    pub fn destroy_surface(&mut self, client_id: u32, surface_id: u32)
        requires
            old(self).wf(),
        ensures
            final(self).wf(),
            final(self)@ == old(self)@.surface_destroyed(client_id, surface_id),
    {
        let dragged = match &self.drag {
            Some(drag) => drag.origin.0 == client_id && drag.origin.1 == surface_id,
            None => false,
        };
        if dragged {
            self.cancel_drag();
        }
        let ghost before = self@;
        self.surfaces.remove((client_id, surface_id));
        proof {
            tree::lemma_forest_kept(
                tree::surface_links(before.surfaces),
                tree::surface_links(self@.surfaces),
            );
        }
    }

    /// Make a region.
    pub fn create_region(&mut self, client_id: u32, region_id: u32)
        requires
            old(self).wf(),
        ensures
            final(self).wf(),
            final(self)@ == old(self)@.region_created(client_id, region_id),
    {
        self.regions.insert((client_id, region_id), Region { client_id, rects: Vec::new() });
    }

    /// Unmake a region.
    pub fn destroy_region(&mut self, client_id: u32, region_id: u32)
        requires
            old(self).wf(),
        ensures
            final(self).wf(),
            final(self)@ == old(self)@.region_destroyed(client_id, region_id),
    {
        self.regions.remove((client_id, region_id));
    }

    /// Wrap a surface.
    pub fn create_xdg_surface(&mut self, client_id: u32, xdg_surface_id: u32, wl_surface_id: u32)
        requires
            old(self).wf(),
        ensures
            final(self).wf(),
            final(self)@ == old(self)@.xdg_surface_created(
                client_id,
                xdg_surface_id,
                wl_surface_id,
            ),
    {
        self.xdg_surfaces.insert(
            (client_id, xdg_surface_id),
            XdgSurfaceState {
                client_id,
                wl_surface_id,
                role: None,
                configured: false,
                geometry: None,
            },
        );
    }

    /// Unwrap a surface.
    pub fn destroy_xdg_surface(&mut self, client_id: u32, xdg_surface_id: u32)
        requires
            old(self).wf(),
        ensures
            final(self).wf(),
            final(self)@ == old(self)@.xdg_surface_destroyed(client_id, xdg_surface_id),
    {
        self.xdg_surfaces.remove((client_id, xdg_surface_id));
    }

    /// Make a window.
    ///
    /// A window opens on top of the workspace showing on its output. If there
    /// is no output yet it is held aside, and [`Self::confine_toplevels`]
    /// places it once one appears.
    pub fn create_xdg_toplevel(&mut self, client_id: u32, toplevel_id: u32, xdg_surface_id: u32)
        requires
            old(self).wf(),
        ensures
            final(self).wf(),
            final(self)@ == old(self)@.toplevel_created(client_id, toplevel_id, xdg_surface_id),
    {
        self.xdg_toplevels.insert(
            (client_id, toplevel_id),
            XdgToplevelState::new(client_id, xdg_surface_id),
        );
        proof {
            tree::lemma_forest_kept(
                tree::toplevel_links(old(self)@.xdg_toplevels),
                tree::toplevel_links(self@.xdg_toplevels),
            );
        }
        let surface_id: u32 = match self.xdg_surfaces.get_mut((client_id, xdg_surface_id)) {
            Some(xdg_surface) => {
                xdg_surface.role = Some(XdgRole::Toplevel(toplevel_id));
                xdg_surface.wl_surface_id
            },
            None => {
                return ;
            },
        };
        let _ = self.home_toplevel((client_id, surface_id));
        self.dirty = true;
    }

    /// Unmake a window: take it off its workspace, and the focus from it.
    pub fn destroy_xdg_toplevel(&mut self, client_id: u32, toplevel_id: u32)
        requires
            old(self).wf(),
        ensures
            final(self).wf(),
            final(self)@ == old(self)@.toplevel_destroyed(client_id, toplevel_id),
    {
        let removed = self.xdg_toplevels.remove((client_id, toplevel_id));
        proof {
            tree::lemma_forest_kept(
                tree::toplevel_links(old(self)@.xdg_toplevels),
                tree::toplevel_links(self@.xdg_toplevels),
            );
        }
        if let Some(toplevel) = removed {
            if let Some(surface) = self.surface_of_xdg((client_id, toplevel.xdg_surface_id)) {
                proof {
                    workspace::lemma_sound_removed(self@.workspaces, surface);
                }
                self.workspaces.remove(surface);
                let focused = match self.focused_surface {
                    Some(f) => f.0 == surface.0 && f.1 == surface.1,
                    None => false,
                };
                if focused {
                    self.focused_surface = None;
                }
                self.dirty = true;
            }
        }
    }

    /// Make a popup.
    pub fn create_xdg_popup(
        &mut self,
        client_id: u32,
        popup_id: u32,
        xdg_surface_id: u32,
        parent_xdg_surface_id: u32,
        x: i32,
        y: i32,
        width: i32,
        height: i32,
    )
        requires
            old(self).wf(),
        ensures
            final(self).wf(),
            final(self)@ == old(self)@.popup_created(
                client_id,
                popup_id,
                xdg_surface_id,
                parent_xdg_surface_id,
                x,
                y,
                width,
                height,
            ),
    {
        self.xdg_popups.insert(
            (client_id, popup_id),
            XdgPopupState {
                client_id,
                xdg_surface_id,
                parent_xdg_surface_id,
                x,
                y,
                width,
                height,
            },
        );
        if let Some(xdg_surface) = self.xdg_surfaces.get_mut((client_id, xdg_surface_id)) {
            xdg_surface.role = Some(XdgRole::Popup(popup_id));
        }
    }

    /// Unmake a popup.
    pub fn destroy_xdg_popup(&mut self, client_id: u32, popup_id: u32)
        requires
            old(self).wf(),
        ensures
            final(self).wf(),
            final(self)@ == old(self)@.popup_destroyed(client_id, popup_id),
    {
        self.xdg_popups.remove((client_id, popup_id));
    }

    /// Make a positioner.
    pub fn create_xdg_positioner(&mut self, client_id: u32, positioner_id: u32)
        requires
            old(self).wf(),
        ensures
            final(self).wf(),
            final(self)@ == old(self)@.positioner_created(client_id, positioner_id),
    {
        self.xdg_positioners.insert((client_id, positioner_id), XdgPositionerState::new(client_id));
    }

    /// Unmake a positioner.
    pub fn destroy_xdg_positioner(&mut self, client_id: u32, positioner_id: u32)
        requires
            old(self).wf(),
        ensures
            final(self).wf(),
            final(self)@ == old(self)@.positioner_destroyed(client_id, positioner_id),
    {
        self.xdg_positioners.remove((client_id, positioner_id));
    }

    /// Put a viewport on a surface.
    pub fn create_viewport(&mut self, client_id: u32, viewport_id: u32, surface_id: u32)
        requires
            old(self).wf(),
        ensures
            final(self).wf(),
            final(self)@ == old(self)@.viewport_created(client_id, viewport_id, surface_id),
    {
        self.viewports.insert(
            (client_id, viewport_id),
            ViewportState {
                client_id,
                surface_id,
                source: None,
                destination: None,
                pending_source: None,
                pending_destination: None,
            },
        );
        self.surface_viewport.insert((client_id, surface_id), viewport_id);
    }

    /// Take a viewport off its surface.
    pub fn destroy_viewport(&mut self, client_id: u32, viewport_id: u32)
        requires
            old(self).wf(),
        ensures
            final(self).wf(),
            final(self)@ == old(self)@.viewport_destroyed(client_id, viewport_id),
    {
        if let Some(viewport) = self.viewports.remove((client_id, viewport_id)) {
            self.surface_viewport.remove((client_id, viewport.surface_id));
        }
    }

    /// The dialogs of a window, in order.
    fn dialogs_of(&self, window: ClientObjectId) -> (r: Vec<ClientObjectId>)
        requires
            self.wf(),
        ensures
            r@ == self@.dialogs_of(window),
    {
        let keys = self.xdg_toplevels.keys();
        let ghost p = dialog_of(self@.xdg_toplevels, window);
        let mut r: Vec<ClientObjectId> = Vec::new();
        let mut i: usize = 0;
        proof {
            reveal(Seq::filter);
            assert(keys@.take(0) =~= Seq::empty());
        }
        while i < keys.len()
            invariant
                self.wf(),
                i <= keys@.len(),
                table::lists(keys@, self@.xdg_toplevels.dom()),
                p == dialog_of(self@.xdg_toplevels, window),
                r@ == keys@.take(i as int).filter(p),
            decreases keys@.len() - i,
        {
            let k = keys[i];
            proof {
                assert(keys@.contains(k));
                seqs::lemma_filter_step(keys@, p, i as int);
            }
            let parent: Option<u32> = match self.xdg_toplevels.get(k) {
                Some(toplevel) => toplevel.parent,
                None => None,
            };
            if k.0 == window.0 {
                if let Some(id) = parent {
                    if id == window.1 {
                        r.push(k);
                    }
                }
            }
            i = i + 1;
        }
        assert(keys@.take(i as int) =~= keys@);
        r
    }

    fn raise_toplevel(&mut self, window: ClientObjectId)
        requires
            old(self).wf(),
        ensures
            final(self).wf(),
            final(self)@ == (State {
                workspaces: old(self)@.window_raised(old(self)@.workspaces, window),
                ..old(self)@
            }),
    {
        if let Some(surface) = self.surface_of_toplevel(window) {
            proof {
                workspace::lemma_sound_raised(self@.workspaces, surface);
            }
            self.workspaces.raise(surface);
        }
    }

    fn raise_owners(&mut self, window: ClientObjectId, steps: usize)
        requires
            old(self).wf(),
        ensures
            final(self).wf(),
            final(self)@ == (State {
                workspaces: old(self)@.owners_raised(
                    old(self)@.workspaces,
                    window,
                    steps as nat,
                ),
                ..old(self)@
            }),
        decreases steps,
    {
        let parent: Option<u32> = match self.xdg_toplevels.get(window) {
            Some(toplevel) => toplevel.parent,
            None => None,
        };
        if steps > 0 {
            if let Some(id) = parent {
                let owner = (window.0, id);
                let ghost start = self@;
                self.raise_owners(owner, steps - 1);
                self.raise_toplevel(owner);
                assert(self@.surface_of_toplevel(owner) == start.surface_of_toplevel(owner));
            }
        }
    }

    fn raise_family(&mut self, window: ClientObjectId, steps: usize)
        requires
            old(self).wf(),
        ensures
            final(self).wf(),
            final(self)@ == (State {
                workspaces: old(self)@.family_raised(
                    old(self)@.workspaces,
                    window,
                    steps as nat,
                ),
                ..old(self)@
            }),
        decreases steps,
    {
        let ghost start = self@;
        self.raise_toplevel(window);
        if steps == 0 {
            return ;
        }
        let ghost w = self@.workspaces;
        let dialogs = self.dialogs_of(window);
        let ghost fewer = (steps - 1) as nat;
        let mut i: usize = 0;
        assert(dialogs@.take(0) =~= Seq::empty());
        while i < dialogs.len()
            invariant
                self.wf(),
                i <= dialogs@.len(),
                steps > 0,
                fewer == (steps - 1) as nat,
                self@ == (State {
                    workspaces: start.families_raised(w, dialogs@.take(i as int), fewer),
                    ..start
                }),
            decreases dialogs@.len() - i,
        {
            let ghost current = self@;
            proof {
                assert(dialogs@.take(i as int + 1).drop_last() =~= dialogs@.take(i as int));
                lemma_family_depends(current, start, current.workspaces, dialogs@[i as int], fewer);
            }
            self.raise_family(dialogs[i], steps - 1);
            i = i + 1;
        }
        assert(dialogs@.take(i as int) =~= dialogs@);
    }

    /// Raise a window, bringing what it belongs to and its dialogs with it.
    ///
    /// A parent is kept above nothing and below its children: raising either
    /// brings the pair up together, so a dialog cannot end up behind the window
    /// it belongs to.
    pub fn raise_with_children(&mut self, window: ClientObjectId)
        requires
            old(self).wf(),
        ensures
            final(self).wf(),
            final(self)@ == old(self)@.raised_with_children(window),
    {
        let steps: usize = self.xdg_toplevels.len();
        self.raise_owners(window, steps);
        proof {
            lemma_family_depends(self@, old(self)@, self@.workspaces, window, steps as nat);
        }
        self.raise_family(window, steps);
        self.dirty = true;
    }

    /// Where a positioner puts a popup that hangs off a surface, and how large.
    /// `None` if it is no positioner.
    ///
    /// The constraining region is the parent's output, expressed relative to
    /// the parent.
    pub fn place_popup(&self, key: ClientObjectId, parent: ClientObjectId) -> (r: Option<
        (i32, i32, i32, i32),
    >)
        requires
            self.wf(),
        ensures
            r == self@.popup_placement(key, parent),
    {
        match self.xdg_positioners.get(key) {
            Some(positioner) => {
                let root = root_surface(self, parent);
                let room: Option<(i32, i32, i32, i32)> = match self.surface_output(root) {
                    Some(id) => match find_output(&self.outputs, id) {
                        Some(i) => {
                            assert(self@.outputs[i as int] == self.outputs@[i as int]@);
                            let g = &self.outputs[i].geometry;
                            let (x, y): (i32, i32) = surface_global_position(
                                self,
                                parent.0,
                                parent.1,
                            );
                            Some(
                                (
                                    objects::saturating_difference(g.x, x),
                                    objects::saturating_difference(g.y, y),
                                    g.physical_width,
                                    g.physical_height,
                                ),
                            )
                        },
                        None => None,
                    },
                    None => None,
                };
                Some(place(positioner, room))
            },
            None => None,
        }
    }
}

impl CompositorState {
    /// Take a client out of any drag.
    fn remove_client_from_drag(&mut self, client_id: u32)
        requires
            old(self).wf(),
        ensures
            final(self).wf(),
            final(self)@ == old(self)@.drag_without(client_id),
    {
        let (origin, target): (bool, bool) = match &self.drag {
            Some(drag) => (
                drag.origin_client == client_id,
                match drag.focus {
                    Some(focus) => focus.0 == client_id,
                    None => false,
                },
            ),
            None => (false, false),
        };
        if origin {
            self.cancel_drag();
        } else if target {
            self.end_drag_focus();
        }
    }

    /// Take back everything a client offers, and everything offered to it.
    fn remove_client_transfers(&mut self, client_id: u32)
        requires
            old(self).wf(),
        ensures
            final(self).wf(),
            final(self)@ == old(self)@.transfers_without(client_id),
    {
        self.remove_client_from_drag(client_id);
        let ghost start = self@;
        let sources = self.data_sources.keys_of(client_id);
        let mut i: usize = 0;
        proof {
            state::lemma_each_ends(start, sources@, retiring());
        }
        while i < sources.len()
            invariant
                self.wf(),
                i <= sources@.len(),
                self@ == state::each(start, sources@.take(i as int), retiring()),
            decreases sources@.len() - i,
        {
            proof {
                state::lemma_each_step(start, sources@, retiring(), i as int);
            }
            self.retire_data_source(sources[i], false);
            i = i + 1;
        }
        self.data_offers.remove_client(client_id);
    }

    /// Free a client's buffers and pools, and what it had under construction.
    fn remove_client_memory(&mut self, client_id: u32)
        requires
            old(self).wf(),
        ensures
            final(self).wf(),
            final(self)@ == old(self)@.memory_without(client_id),
    {
        self.cancel_imports(client_id, None);
        let ghost s0 = self@;
        let params = self.dmabuf_params.keys_of(client_id);
        let ghost f0 = zwp_linux_buffer_params::removing_params();
        let mut i: usize = 0;
        proof {
            state::lemma_each_ends(s0, params@, f0);
        }
        while i < params.len()
            invariant
                self.wf(),
                i <= params@.len(),
                f0 == zwp_linux_buffer_params::removing_params(),
                self@ == state::each(s0, params@.take(i as int), f0),
            decreases params@.len() - i,
        {
            proof {
                state::lemma_each_step(s0, params@, f0, i as int);
            }
            self.remove_params(params[i]);
            i = i + 1;
        }
        let ghost s1 = self@;
        let buffers = self.buffers.keys_of(client_id);
        let mut i: usize = 0;
        proof {
            state::lemma_each_ends(s1, buffers@, destroying_buffer());
        }
        while i < buffers.len()
            invariant
                self.wf(),
                i <= buffers@.len(),
                self@ == state::each(s1, buffers@.take(i as int), destroying_buffer()),
            decreases buffers@.len() - i,
        {
            proof {
                state::lemma_each_step(s1, buffers@, destroying_buffer(), i as int);
            }
            self.destroy_buffer(buffers[i].0, buffers[i].1);
            i = i + 1;
        }
        let ghost s2 = self@;
        let pools = self.shm_pools.keys_of(client_id);
        let mut i: usize = 0;
        proof {
            state::lemma_each_ends(s2, pools@, destroying_pool());
        }
        while i < pools.len()
            invariant
                self.wf(),
                i <= pools@.len(),
                self@ == state::each(s2, pools@.take(i as int), destroying_pool()),
            decreases pools@.len() - i,
        {
            proof {
                state::lemma_each_step(s2, pools@, destroying_pool(), i as int);
            }
            self.destroy_shm_pool(pools[i].0, pools[i].1);
            i = i + 1;
        }
    }

    /// Forget the fingers on a client's surfaces.
    fn remove_client_touch_points(&mut self, client_id: u32)
        requires
            old(self).wf(),
        ensures
            final(self).wf(),
            final(self)@ == (State {
                touch_points: touching_others(old(self)@.touch_points, client_id),
                ..old(self)@
            }),
    {
        let ids = self.touch_points.keys();
        let ghost start = self@;
        let mut i: usize = 0;
        while i < ids.len()
            invariant
                self.wf(),
                i <= ids@.len(),
                table::lists(ids@, start.touch_points.dom()),
                self@ == (State { touch_points: self@.touch_points, ..start }),
                forall|k: i32|
                    #![trigger self@.touch_points.contains_key(k)]
                    self@.touch_points.contains_key(k) ==> start.touch_points.contains_key(k)
                        && self@.touch_points[k] == start.touch_points[k],
                forall|k: i32|
                    #![trigger start.touch_points.contains_key(k)]
                    start.touch_points.contains_key(k) && start.touch_points[k].0 != client_id
                        ==> self@.touch_points.contains_key(k),
                forall|j: int|
                    0 <= j < i && start.touch_points[#[trigger] ids@[j]].0 == client_id
                        ==> !self@.touch_points.contains_key(ids@[j]),
            decreases ids@.len() - i,
        {
            let id: i32 = ids[i];
            proof {
                assert(ids@.contains(id));
            }
            let theirs = match self.touch_points.get(id) {
                Some(surface) => surface.0 == client_id,
                None => false,
            };
            if theirs {
                self.touch_points.remove(id);
            }
            i = i + 1;
        }
        proof {
            let want = touching_others(start.touch_points, client_id);
            assert forall|k: i32| self@.touch_points.contains_key(k) implies want.contains_key(
                k,
            ) by {
                assert(start.touch_points.contains_key(k));
                assert(ids@.contains(k));
            }
            assert(self@.touch_points =~= want);
        }
    }

    /// Remove everything belonging to a disconnecting client.
    pub fn remove_client_resources(&mut self, client_id: u32)
        requires
            old(self).wf(),
        ensures
            final(self).wf(),
            final(self)@ == old(self)@.client_forgotten(client_id),
    {
        self.remove_client_transfers(client_id);
        self.remove_client_memory(client_id);
        let ghost start = self@;
        self.remove_client_touch_points(client_id);
        self.buffer_guards.remove_client(client_id);
        self.releasing_buffers.remove_client(client_id);
        self.surfaces.remove_client(client_id);
        self.regions.remove_client(client_id);
        self.xdg_toplevels.remove_client(client_id);
        self.xdg_popups.remove_client(client_id);
        self.xdg_surfaces.remove_client(client_id);
        self.xdg_positioners.remove_client(client_id);
        self.viewports.remove_client(client_id);
        self.surface_viewport.remove_client(client_id);
        release_client(&mut self.pointers, client_id);
        release_client(&mut self.keyboards, client_id);
        release_client(&mut self.touches, client_id);
        release_client(&mut self.data_devices, client_id);
        self.output_bindings.remove_client(client_id);
        self.cursor_surfaces.remove(client_id);
        self.pointer_enter_serial.remove(client_id);
        self.cursor_role_surfaces.remove_client(client_id);
        self.dnd_icon_surfaces.remove_client(client_id);
        self.subsurface_map.remove_client(client_id);
        retain_other_clients(&mut self.grabbed_popups, client_id);
        self.last_button_serial.remove(client_id);
        self.input_serials.remove(client_id);
        if let Some(grab) = self.pointer_grab {
            if grab.surface.0 == client_id {
                self.pointer_grab = None;
            }
        }
        proof {
            workspace::lemma_sound_client_removed(self@.workspaces, client_id);
        }
        self.workspaces.remove_client(client_id);
        retain_other_clients(&mut self.buffers_pending_release, client_id);
        if let Some(focused) = self.focused_surface {
            if focused.0 == client_id {
                self.focused_surface = None;
            }
        }
        proof {
            tree::lemma_forest_kept(
                tree::surface_links(start.surfaces),
                tree::surface_links(self@.surfaces),
            );
            tree::lemma_forest_kept(
                tree::toplevel_links(start.xdg_toplevels),
                tree::toplevel_links(self@.xdg_toplevels),
            );
            assert(self@ =~= old(self)@.client_forgotten(client_id));
        }
    }
}

/// Raising depends on which windows there are and what they are made of, and
/// on nothing else.
proof fn lemma_family_depends(
    a: State,
    b: State,
    w: WorkspacesView,
    window: ClientObjectId,
    steps: nat,
)
    requires
        a.xdg_toplevels == b.xdg_toplevels,
        a.xdg_surfaces == b.xdg_surfaces,
    ensures
        a.family_raised(w, window, steps) == b.family_raised(w, window, steps),
    decreases steps, 0nat,
{
    assert(a.surface_of_toplevel(window) == b.surface_of_toplevel(window));
    if steps > 0 {
        lemma_families_depend(
            a,
            b,
            a.window_raised(w, window),
            a.dialogs_of(window),
            (steps - 1) as nat,
        );
    }
}

proof fn lemma_families_depend(
    a: State,
    b: State,
    w: WorkspacesView,
    windows: Seq<ClientObjectId>,
    steps: nat,
)
    requires
        a.xdg_toplevels == b.xdg_toplevels,
        a.xdg_surfaces == b.xdg_surfaces,
    ensures
        a.families_raised(w, windows, steps) == b.families_raised(w, windows, steps),
    decreases steps, windows.len(),
{
    if windows.len() > 0 {
        lemma_families_depend(a, b, w, windows.drop_last(), steps);
        lemma_family_depends(
            a,
            b,
            a.families_raised(w, windows.drop_last(), steps),
            windows.last(),
            steps,
        );
    }
}

} // verus!

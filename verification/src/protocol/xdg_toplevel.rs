//! `xdg_toplevel` protocol handler.
//!
//! A toplevel is the primary window role. The compositor sends configure
//! events (size, states like maximized/fullscreen), and the client can
//! set title, `app_id`, and request state changes.

use crate::objects::{self, has_id, remove_id, GrabKind, ResizeEdges, XdgToplevelView};
use crate::protocol::{acknowledge, malformed_request, unknown_request, xdg_surface};
use crate::state::{CompositorState, State};
use crate::tree::{self, would_cycle};
use crate::windows::find_output;
use crate::wire::{
    self, build_message, tell0, tell2, ArgReader, ArgWriter, Message, Request,
    WaylandProtocolMessageWithClientInfo,
};
use crate::workspace::ClientObjectId;
use vstd::prelude::*;

verus! {

// Request opcodes
pub const DESTROY: u16 = 0;

pub const SET_PARENT: u16 = 1;

pub const SET_TITLE: u16 = 2;

pub const SET_APP_ID: u16 = 3;

pub const SHOW_WINDOW_MENU: u16 = 4;

pub const MOVE: u16 = 5;

pub const RESIZE: u16 = 6;

pub const SET_MAX_SIZE: u16 = 7;

pub const SET_MIN_SIZE: u16 = 8;

pub const SET_MAXIMIZED: u16 = 9;

pub const UNSET_MAXIMIZED: u16 = 10;

pub const SET_FULLSCREEN: u16 = 11;

pub const UNSET_FULLSCREEN: u16 = 12;

pub const SET_MINIMIZED: u16 = 13;

// Event opcodes
pub const CONFIGURE: u16 = 0;

pub const CLOSE: u16 = 1;

pub const CONFIGURE_BOUNDS: u16 = 2;

pub const WM_CAPABILITIES: u16 = 3;

/// `xdg_toplevel.error.invalid_size`
pub const ERROR_INVALID_SIZE: u32 = 2;

/// `xdg_toplevel.wm_capability`: the window-management requests a compositor
/// may support.
pub const WM_CAP_WINDOW_MENU: u32 = 1;

pub const WM_CAP_MAXIMIZE: u32 = 2;

pub const WM_CAP_FULLSCREEN: u32 = 3;

pub const WM_CAP_MINIMIZE: u32 = 4;

/// The version at which `wm_capabilities` appears.
pub const WM_CAPABILITIES_SINCE: u32 = 5;

/// The version at which `configure_bounds` appears.
pub const CONFIGURE_BOUNDS_SINCE: u32 = 4;

// `xdg_toplevel.state` values.
pub const STATE_MAXIMIZED: u32 = 1;

pub const STATE_FULLSCREEN: u32 = 2;

pub const STATE_RESIZING: u32 = 3;

pub const STATE_ACTIVATED: u32 = 4;

/// The capabilities whose requests do something. No menus: the compositor has
/// no text rendering and no widgets. No minimizing: there is no taskbar, dock
/// or window list, so a minimized window would have no way back.
pub open spec fn capabilities() -> Seq<u32> {
    seq![WM_CAP_MAXIMIZE, WM_CAP_FULLSCREEN]
}

/// One state, if the window is in it.
pub open spec fn state_if(held: bool, value: u32) -> Seq<u32> {
    if held {
        seq![value]
    } else {
        Seq::empty()
    }
}

/// Some states and one more, if it is not among them.
pub open spec fn with_state(states: Seq<u32>, value: u32) -> Seq<u32> {
    if states.contains(value) {
        states
    } else {
        states.push(value)
    }
}

/// `xdg_toplevel.configure`
pub open spec fn configure_event(id: u32, width: i32, height: i32, states: Seq<u32>) -> Message {
    wire::event(
        id,
        CONFIGURE,
        Seq::empty() + wire::le_bytes(wire::signed_word(width)) + wire::le_bytes(
            wire::signed_word(height),
        ) + wire::array_bytes(states),
    )
}

impl State {
    /// Every state a window is currently in.
    pub open spec fn states_of(self, key: ClientObjectId) -> Seq<u32> {
        if self.xdg_toplevels.contains_key(key) {
            let t = self.xdg_toplevels[key];
            let resizing = self.pointer_grab matches Some(g) && g.toplevel == key
                && g.kind is Resize;
            let activated = self.surface_of_toplevel(key) is Some && self.focused_surface
                == self.surface_of_toplevel(key);
            state_if(t.maximized, STATE_MAXIMIZED) + state_if(t.fullscreen, STATE_FULLSCREEN)
                + state_if(resizing, STATE_RESIZING) + state_if(activated, STATE_ACTIVATED)
        } else {
            Seq::empty()
        }
    }

    /// How much room a window has: the output it is on.
    pub open spec fn bounds_of(self, key: ClientObjectId) -> Option<(i32, i32)> {
        match self.surface_of_toplevel(key) {
            Some(surface) => match self.workspaces.output_of(surface) {
                Some(id) => match self.output(id) {
                    Some(o) => Some((o.width, o.height)),
                    None => None,
                },
                None => None,
            },
            None => None,
        }
    }

    /// The state once a window's client knows how much room there is. It is
    /// told only what it has not been told already.
    pub open spec fn bounds_told(self, key: ClientObjectId) -> Self {
        match self.bounds_of(key) {
            Some(bounds) if self.xdg_toplevels[key].sent_bounds != Some(bounds) => {
                let s = State {
                    xdg_toplevels: self.xdg_toplevels.insert(
                        key,
                        XdgToplevelView { sent_bounds: Some(bounds), ..self.xdg_toplevels[key] },
                    ),
                    ..self
                };
                if s.speaks(key.0, key.1, CONFIGURE_BOUNDS_SINCE) {
                    s.sent(
                        key.0,
                        wire::told2(
                            key.1,
                            CONFIGURE_BOUNDS,
                            wire::signed_word(bounds.0),
                            wire::signed_word(bounds.1),
                        ),
                    )
                } else {
                    s
                }
            },
            _ => self,
        }
    }

    /// The state once a window's client has been asked to adopt a size, and
    /// told every state the window is in.
    pub open spec fn toplevel_configured(self, key: ClientObjectId, width: i32, height: i32) -> Self {
        let s = self.bounds_told(key);
        let s = s.sent(key.0, configure_event(key.1, width, height, s.states_of(key)));
        if s.xdg_toplevels.contains_key(key) {
            s.xdg_surface_configured(key.0, s.xdg_toplevels[key].xdg_surface_id)
        } else {
            s
        }
    }

    /// The state once a window being resized has been asked to adopt a size.
    pub open spec fn resize_told(
        self,
        key: ClientObjectId,
        width: i32,
        height: i32,
        resizing: bool,
    ) -> Self {
        let states = self.states_of(key);
        self.sent(
            key.0,
            configure_event(
                key.1,
                width,
                height,
                if resizing {
                    with_state(states, STATE_RESIZING)
                } else {
                    states
                },
            ),
        )
    }

    /// The state once the window made of a surface has been told whether it has
    /// the focus.
    pub open spec fn activation_told(self, surface: ClientObjectId, activated: bool) -> Self {
        match self.xdg_ids_for(surface) {
            Some((xdg, toplevel)) if self.knows(surface.0) => {
                let states = self.states_of((surface.0, toplevel));
                self.sent(
                    surface.0,
                    configure_event(
                        toplevel,
                        0,
                        0,
                        if activated {
                            with_state(states, STATE_ACTIVATED)
                        } else {
                            states.filter(objects::other_id(STATE_ACTIVATED))
                        },
                    ),
                ).xdg_surface_configured(surface.0, xdg)
            },
            _ => self,
        }
    }

    /// The state once a client has been told what the window manager can do.
    pub open spec fn capabilities_told(self, client_id: u32, toplevel_id: u32) -> Self {
        if self.speaks(client_id, toplevel_id, WM_CAPABILITIES_SINCE) {
            self.sent(
                client_id,
                wire::event(
                    toplevel_id,
                    WM_CAPABILITIES,
                    Seq::empty() + wire::array_bytes(capabilities()),
                ),
            )
        } else {
            self
        }
    }

    /// The state once a client has been asked to close a window.
    pub open spec fn close_told(self, client_id: u32, toplevel_id: u32) -> Self {
        self.sent(client_id, wire::told0(toplevel_id, CLOSE))
    }

    /// A window can be made to fill its output, or to stop: it is there, it is
    /// not that way already, and it is on an output.
    pub open spec fn can_set_window_state(
        self,
        key: ClientObjectId,
        maximized: bool,
        fullscreen: bool,
    ) -> bool {
        &&& self.xdg_toplevels.contains_key(key)
        &&& self.xdg_toplevels[key].maximized != maximized || self.xdg_toplevels[key].fullscreen
            != fullscreen
        &&& self.surface_of_toplevel(key) matches Some(surface)
        &&& self.surfaces.contains_key(surface)
        &&& self.workspaces.output_of(surface) matches Some(id)
        &&& self.output(id) is Some
    }

    /// The state once a window fills its output or no longer does. Where it was
    /// before it first filled it is where it goes back to.
    pub open spec fn window_state_set(
        self,
        key: ClientObjectId,
        maximized: bool,
        fullscreen: bool,
    ) -> Self {
        if self.can_set_window_state(key, maximized, fullscreen) {
            let t = self.xdg_toplevels[key];
            let surface = self.surface_of_toplevel(key).unwrap();
            let position = self.surfaces[surface].position;
            let size = self.surface_size(surface);
            let o = self.output(self.workspaces.output_of(surface).unwrap()).unwrap();
            let filled = t.maximized || t.fullscreen;
            let fills = maximized || fullscreen;
            let restore = if !fills {
                None
            } else if filled {
                t.restore
            } else {
                Some((position.0, position.1, size.0, size.1))
            };
            let (x, y, width, height) = if fills {
                (o.x, o.y, o.width, o.height)
            } else {
                match t.restore {
                    Some(r) => r,
                    None => (position.0, position.1, 0, 0),
                }
            };
            State {
                xdg_toplevels: self.xdg_toplevels.insert(
                    key,
                    XdgToplevelView { maximized, fullscreen, restore, ..t },
                ),
                ..self
            }.surface_put(surface, (x, y)).dirtied().toplevel_configured(key, width, height)
        } else {
            self
        }
    }

    /// The state once a client has asked for a window to fill its output or to
    /// stop. It is answered whether or not that changed anything.
    pub open spec fn window_state_asked(
        self,
        key: ClientObjectId,
        maximized: Option<bool>,
        fullscreen: Option<bool>,
    ) -> Self {
        if self.xdg_toplevels.contains_key(key) {
            let t = self.xdg_toplevels[key];
            let maximized = maximized.unwrap_or(t.maximized);
            let fullscreen = fullscreen.unwrap_or(t.fullscreen);
            if self.can_set_window_state(key, maximized, fullscreen) {
                self.window_state_set(key, maximized, fullscreen)
            } else {
                let size = match self.surface_of_toplevel(key) {
                    Some(surface) => self.surface_size(surface),
                    None => (0, 0),
                };
                self.toplevel_configured(key, size.0, size.1)
            }
        } else {
            self
        }
    }

    /// A window may belong to another: to a window of the same client that does
    /// not belong to it.
    pub open spec fn usable_parent(self, key: ClientObjectId, parent_id: u32) -> bool {
        parent_id == 0 || (self.xdg_toplevels.contains_key((key.0, parent_id))
            && !self.under_toplevel((key.0, parent_id), key))
    }

    /// The state once a client has said which window a dialog belongs to.
    pub open spec fn parent_set(self, r: Request) -> Self {
        let key = r.key();
        match r.word(0) {
            Some(parent_id) => if self.usable_parent(key, parent_id) {
                let s = if self.xdg_toplevels.contains_key(key) {
                    State {
                        xdg_toplevels: self.xdg_toplevels.insert(
                            key,
                            XdgToplevelView {
                                parent: if parent_id == 0 {
                                    None
                                } else {
                                    Some(parent_id)
                                },
                                ..self.xdg_toplevels[key]
                            },
                        ),
                        ..self
                    }
                } else {
                    self
                };
                s.raised_with_children(key)
            } else {
                self
            },
            None => self.malformed(r, "xdg_toplevel"@),
        }
    }

    /// The window a client may take the pointer for: a serial it was sent for a
    /// button press, with a button still held.
    pub open spec fn grab_target(
        self,
        client_id: u32,
        toplevel_id: u32,
        serial: u32,
    ) -> Option<ClientObjectId> {
        if self.pressed_buttons == Set::<u32>::empty() || !self.last_button_serial.contains_key(client_id)
            || self.last_button_serial[client_id] != serial {
            None
        } else {
            self.surface_of_toplevel((client_id, toplevel_id))
        }
    }

    /// The state once a client has asked to move a window.
    pub open spec fn move_asked(self, r: Request) -> Self {
        match (r.word(0), r.word(4)) {
            (Some(_), Some(serial)) => match self.grab_target(r.client, r.object, serial) {
                Some(surface) => self.move_started(surface),
                None => self,
            },
            _ => self.malformed(r, "xdg_toplevel"@),
        }
    }

    /// The state once a client has asked to resize a window.
    pub open spec fn resize_asked(self, r: Request) -> Self {
        match (r.word(0), r.word(4), r.word(8)) {
            (Some(_), Some(serial), Some(edges)) => match self.grab_target(
                r.client,
                r.object,
                serial,
            ) {
                Some(surface) => self.resize_started(surface, ResizeEdges(edges)),
                None => self,
            },
            _ => self.malformed(r, "xdg_toplevel"@),
        }
    }

    /// The state once a client has said how small or how large a window may be.
    pub open spec fn size_hinted(self, r: Request, smallest: bool) -> Self {
        let key = r.key();
        match (r.signed(0), r.signed(4)) {
            (Some(width), Some(height)) => if width < 0 || height < 0 {
                self.errored(
                    r.client,
                    r.object,
                    ERROR_INVALID_SIZE,
                    "xdg_toplevel: size hint must not be negative"@,
                )
            } else if self.xdg_toplevels.contains_key(key) {
                let t = self.xdg_toplevels[key];
                State {
                    xdg_toplevels: self.xdg_toplevels.insert(
                        key,
                        if smallest {
                            XdgToplevelView { min_size: (width, height), ..t }
                        } else {
                            XdgToplevelView { max_size: (width, height), ..t }
                        },
                    ),
                    ..self
                }
            } else {
                self
            },
            _ => self.malformed(r, "xdg_toplevel"@),
        }
    }

    /// The state once a client has named a window.
    pub open spec fn title_set(self, r: Request) -> Self {
        let key = r.key();
        match wire::string_at(r.args, 0) {
            Some((title, _)) => if self.xdg_toplevels.contains_key(key) {
                State {
                    xdg_toplevels: self.xdg_toplevels.insert(
                        key,
                        XdgToplevelView { title: Some(title), ..self.xdg_toplevels[key] },
                    ),
                    ..self
                }
            } else {
                self
            },
            None => self.malformed(r, "xdg_toplevel"@),
        }
    }

    /// The state once a client has said which application a window is of.
    pub open spec fn app_id_set(self, r: Request) -> Self {
        let key = r.key();
        match wire::string_at(r.args, 0) {
            Some((app_id, _)) => if self.xdg_toplevels.contains_key(key) {
                State {
                    xdg_toplevels: self.xdg_toplevels.insert(
                        key,
                        XdgToplevelView { app_id: Some(app_id), ..self.xdg_toplevels[key] },
                    ),
                    ..self
                }
            } else {
                self
            },
            None => self.malformed(r, "xdg_toplevel"@),
        }
    }

    /// The state once an `xdg_toplevel` request has been handled.
    pub open spec fn xdg_toplevel_handled(self, r: Request) -> Self {
        if r.op == DESTROY {
            self.toplevel_destroyed(r.client, r.object).unregistered(r.client, r.object)
        } else if r.op == SET_PARENT {
            self.parent_set(r)
        } else if r.op == SET_TITLE {
            self.title_set(r)
        } else if r.op == SET_APP_ID {
            self.app_id_set(r)
        } else if r.op == MOVE {
            self.move_asked(r)
        } else if r.op == RESIZE {
            self.resize_asked(r)
        } else if r.op == SET_MIN_SIZE {
            self.size_hinted(r, true)
        } else if r.op == SET_MAX_SIZE {
            self.size_hinted(r, false)
        } else if r.op == SET_MAXIMIZED {
            self.window_state_asked(r.key(), Some(true), None)
        } else if r.op == UNSET_MAXIMIZED {
            self.window_state_asked(r.key(), Some(false), None)
        } else if r.op == SET_FULLSCREEN {
            if r.args.len() < 4 {
                self.malformed(r, "xdg_toplevel"@)
            } else {
                self.window_state_asked(r.key(), None, Some(true))
            }
        } else if r.op == UNSET_FULLSCREEN {
            self.window_state_asked(r.key(), None, Some(false))
        } else if r.op == SHOW_WINDOW_MENU {
            self.acknowledged(r, 4, "xdg_toplevel"@)
        } else if r.op == SET_MINIMIZED {
            self
        } else {
            self.rejected(r, "xdg_toplevel"@)
        }
    }
}

pub fn handle(state: &mut CompositorState, msg: &WaylandProtocolMessageWithClientInfo)
    requires
        old(state).wf(),
    ensures
        final(state).wf(),
        final(state)@ == old(state)@.xdg_toplevel_handled(msg@),
{
    proof {
        reveal_strlit("xdg_toplevel");
    }
    match msg.message.op_code {
        DESTROY => {
            state.destroy_xdg_toplevel(msg.client_id, msg.message.object_id);
            state.unregister(msg.client_id, msg.message.object_id);
        },
        SET_TITLE => handle_set_title(state, msg),
        SET_APP_ID => handle_set_app_id(state, msg),
        MOVE => handle_move(state, msg),
        RESIZE => handle_resize(state, msg),
        SET_PARENT => handle_set_parent(state, msg),
        // The compositor draws no menus, so there is nothing to show.
        // `wm_capabilities` reports the capability as absent, which is a
        // client's cue to draw its own menu rather than ask for one.
        SHOW_WINDOW_MENU => {
            acknowledge(state, msg, 4, "xdg_toplevel");
        },
        SET_MIN_SIZE => handle_set_size_hint(state, msg, true),
        SET_MAX_SIZE => handle_set_size_hint(state, msg, false),
        SET_MAXIMIZED => set_state(state, msg, Some(true), None),
        UNSET_MAXIMIZED => set_state(state, msg, Some(false), None),
        // Which output to fill is for the compositor to say.
        SET_FULLSCREEN => {
            if acknowledge(state, msg, 1, "xdg_toplevel") {
                set_state(state, msg, None, Some(true));
            }
        },
        UNSET_FULLSCREEN => set_state(state, msg, None, Some(false)),
        // Not a thing the compositor does, and `wm_capabilities` says so.
        SET_MINIMIZED => {},
        _ => unknown_request(state, msg, "xdg_toplevel"),
    }
}

impl CompositorState {
    /// Make a window fill its output, or stop. Returns false if it did not
    /// change: it was that way already, or it is on no output.
    ///
    /// A window made fullscreen while maximized is still maximized underneath,
    /// so it goes back to where it was only once it is neither.
    pub fn set_window_state(&mut self, key: ClientObjectId, maximized: bool, fullscreen: bool) -> (r:
        bool)
        requires
            old(self).wf(),
        ensures
            final(self).wf(),
            final(self)@ == old(self)@.window_state_set(key, maximized, fullscreen),
            r == old(self)@.can_set_window_state(key, maximized, fullscreen),
    {
        let (was_maximized, was_fullscreen, was_at): (bool, bool, Option<(i32, i32, i32, i32)>) =
            match self.xdg_toplevels.get(key) {
            Some(t) => (t.maximized, t.fullscreen, t.restore),
            None => {
                return false;
            },
        };
        if was_maximized == maximized && was_fullscreen == fullscreen {
            return false;
        }
        let surface = match self.surface_of_toplevel(key) {
            Some(surface) => surface,
            None => {
                return false;
            },
        };
        let position: (i32, i32) = match self.surfaces.get(surface) {
            Some(s) => s.position,
            None => {
                return false;
            },
        };
        let id = match self.surface_output(surface) {
            Some(id) => id,
            None => {
                return false;
            },
        };
        let (ox, oy, ow, oh): (i32, i32, i32, i32) = match find_output(&self.outputs, id) {
            Some(i) => {
                assert(self@.outputs[i as int] == self.outputs@[i as int]@);
                let g = &self.outputs[i].geometry;
                (g.x, g.y, g.physical_width, g.physical_height)
            },
            None => {
                return false;
            },
        };
        let size: (i32, i32) = self.surface_size(surface);
        let filled = was_maximized || was_fullscreen;
        let fills = maximized || fullscreen;
        let restore: Option<(i32, i32, i32, i32)> = if !fills {
            None
        } else if filled {
            was_at
        } else {
            Some((position.0, position.1, size.0, size.1))
        };
        let (x, y, width, height): (i32, i32, i32, i32) = if fills {
            (ox, oy, ow, oh)
        } else {
            match was_at {
                Some(r) => r,
                None => (position.0, position.1, 0, 0),
            }
        };
        if let Some(t) = self.xdg_toplevels.get_mut(key) {
            t.maximized = maximized;
            t.fullscreen = fullscreen;
            t.restore = restore;
        }
        if let Some(s) = self.surfaces.get_mut(surface) {
            s.position = (x, y);
        }
        self.dirty = true;
        assert(tree::surface_links(self@.surfaces) =~= tree::surface_links(old(self)@.surfaces));
        assert(tree::toplevel_links(self@.xdg_toplevels) =~= tree::toplevel_links(
            old(self)@.xdg_toplevels,
        ));
        configure(self, key, width, height);
        true
    }
}

/// Apply `set_maximized`, `unset_maximized`, `set_fullscreen` or
/// `unset_fullscreen`.
///
/// All four are requests rather than commands: the compositor decides, and
/// answers with a configure either way. Refusing silently is legal and is what
/// happens when the window is on no output - but a configure still goes out, so
/// a client waiting on one is never left hanging.
///
/// Each argument is `None` for "leave this as it was". The two states are
/// independent: a window made fullscreen while maximized is still maximized
/// underneath, and un-fullscreening it must put it back to filling the output
/// rather than to the size it had before either.
///
/// `set_fullscreen` names an output it would like to be fullscreen on, which is
/// ignored: a window is confined to the output its workspace belongs to, so the
/// compositor has already decided which display it is on.
fn set_state(
    state: &mut CompositorState,
    msg: &WaylandProtocolMessageWithClientInfo,
    maximized: Option<bool>,
    fullscreen: Option<bool>,
)
    requires
        old(state).wf(),
    ensures
        final(state).wf(),
        final(state)@ == old(state)@.window_state_asked(msg@.key(), maximized, fullscreen),
{
    let key = (msg.client_id, msg.message.object_id);
    let (now_maximized, now_fullscreen): (bool, bool) = match state.xdg_toplevels.get(key) {
        Some(t) => (t.maximized, t.fullscreen),
        None => {
            return ;
        },
    };
    let maximized = match maximized {
        Some(m) => m,
        None => now_maximized,
    };
    let fullscreen = match fullscreen {
        Some(f) => f,
        None => now_fullscreen,
    };
    if !state.set_window_state(key, maximized, fullscreen) {
        // Nothing changed, but the client asked and is owed an answer.
        configure_unchanged(state, key);
    }
}

/// Answer a state request that changed nothing, so the client is not left
/// waiting on a configure that will never come.
fn configure_unchanged(state: &mut CompositorState, key: ClientObjectId)
    requires
        old(state).wf(),
    ensures
        final(state).wf(),
        final(state)@ == {
            let size = match old(state)@.surface_of_toplevel(key) {
                Some(surface) => old(state)@.surface_size(surface),
                None => (0, 0),
            };
            old(state)@.toplevel_configured(key, size.0, size.1)
        },
{
    let size: (i32, i32) = match state.surface_of_toplevel(key) {
        Some(surface) => state.surface_size(surface),
        None => (0, 0),
    };
    configure(state, key, size.0, size.1);
}

/// Record which window a dialog belongs to.
///
/// A null parent detaches the window, which is how a client promotes a dialog
/// to a window in its own right.
fn handle_set_parent(state: &mut CompositorState, msg: &WaylandProtocolMessageWithClientInfo)
    requires
        old(state).wf(),
    ensures
        final(state).wf(),
        final(state)@ == old(state)@.parent_set(msg@),
{
    proof {
        reveal_strlit("xdg_toplevel");
    }
    let mut args = ArgReader::new(msg.message.args.as_slice());
    let parent_id: u32 = match args.u32() {
        Some(id) => id,
        None => {
            malformed_request(state, msg, "xdg_toplevel");
            return ;
        },
    };
    let key = (msg.client_id, msg.message.object_id);
    let candidate = (msg.client_id, parent_id);
    // A parent must be a toplevel of the same client, and may not be the window
    // itself or anything below it.
    if parent_id != 0 {
        if !state.xdg_toplevels.contains_key(candidate) || would_cycle(state, key, candidate) {
            return ;
        }
    }
    let ghost links = tree::toplevel_links(state@.xdg_toplevels);
    if let Some(toplevel) = state.xdg_toplevels.get_mut(key) {
        toplevel.parent = if parent_id == 0 {
            None
        } else {
            Some(parent_id)
        };
    }
    proof {
        let after = tree::toplevel_links(state@.xdg_toplevels);
        if !old(state)@.xdg_toplevels.contains_key(key) {
            assert(after =~= links);
        } else if parent_id == 0 {
            tree::lemma_forest_kept(links, after);
        } else {
            tree::law_linking_closes_no_circle(links, key, candidate);
            assert(after =~= links.insert(key, candidate));
        }
    }
    state.raise_with_children(key);
}

/// Tell a client how much room it has to size itself into.
///
/// The bounds are the output the window is on. There are no panels or docks to
/// subtract, so the whole display is available - but the point of the event is
/// that the client should not *assume* that, and a window opening larger than
/// the screen it is on is the thing this prevents.
///
/// Sent only when the answer changes, which for a window that stays on one
/// display means once. A window with no output yet is told nothing rather than
/// told zero: zero means "no bounds known" and would have to be corrected.
fn send_configure_bounds(state: &mut CompositorState, key: ClientObjectId)
    requires
        old(state).wf(),
    ensures
        final(state).wf(),
        final(state)@ == old(state)@.bounds_told(key),
{
    let surface = match state.surface_of_toplevel(key) {
        Some(surface) => surface,
        None => {
            return ;
        },
    };
    let id = match state.surface_output(surface) {
        Some(id) => id,
        None => {
            return ;
        },
    };
    let (width, height): (i32, i32) = match find_output(&state.outputs, id) {
        Some(i) => {
            assert(state@.outputs[i as int] == state.outputs@[i as int]@);
            (state.outputs[i].geometry.physical_width, state.outputs[i].geometry.physical_height)
        },
        None => {
            return ;
        },
    };
    if let Some(toplevel) = state.xdg_toplevels.get_mut(key) {
        if let Some(told) = toplevel.sent_bounds {
            if told.0 == width && told.1 == height {
                assert(state@ =~= old(state)@);
                return ;
            }
        }
        toplevel.sent_bounds = Some((width, height));
    }
    assert(tree::toplevel_links(state@.xdg_toplevels) =~= tree::toplevel_links(
        old(state)@.xdg_toplevels,
    ));
    if state.speaks(key.0, key.1, CONFIGURE_BOUNDS_SINCE) {
        state.send(key.0, tell2(key.1, CONFIGURE_BOUNDS, width as u32, height as u32));
    }
}

/// Tell a client which window-management requests actually do anything.
///
/// This has to be sent. A client told nothing must assume *every* capability is
/// available, so silence is not neutral - it is a claim that maximize,
/// fullscreen, minimize and the window menu all work. Toolkits act on it by
/// drawing the title-bar buttons, and each one then does nothing when pressed.
pub fn send_wm_capabilities(state: &mut CompositorState, client_id: u32, toplevel_id: u32)
    requires
        old(state).wf(),
    ensures
        final(state).wf(),
        final(state)@ == old(state)@.capabilities_told(client_id, toplevel_id),
{
    if state.speaks(client_id, toplevel_id, WM_CAPABILITIES_SINCE) {
        let mut supported: Vec<u32> = Vec::new();
        supported.push(WM_CAP_MAXIMIZE);
        supported.push(WM_CAP_FULLSCREEN);
        assert(supported@ =~= capabilities());
        let args = ArgWriter::new().array_u32(supported.as_slice()).build();
        state.send(client_id, build_message(toplevel_id, WM_CAPABILITIES, args));
    }
}

fn handle_set_title(state: &mut CompositorState, msg: &WaylandProtocolMessageWithClientInfo)
    requires
        old(state).wf(),
    ensures
        final(state).wf(),
        final(state)@ == old(state)@.title_set(msg@),
{
    proof {
        reveal_strlit("xdg_toplevel");
    }
    let mut args = ArgReader::new(msg.message.args.as_slice());
    match args.string() {
        Some(title) => {
            if let Some(toplevel) = state.xdg_toplevels.get_mut(
                (msg.client_id, msg.message.object_id),
            ) {
                toplevel.title = Some(title);
            }
            assert(tree::toplevel_links(state@.xdg_toplevels) =~= tree::toplevel_links(
                old(state)@.xdg_toplevels,
            ));
        },
        None => malformed_request(state, msg, "xdg_toplevel"),
    }
}

fn handle_set_app_id(state: &mut CompositorState, msg: &WaylandProtocolMessageWithClientInfo)
    requires
        old(state).wf(),
    ensures
        final(state).wf(),
        final(state)@ == old(state)@.app_id_set(msg@),
{
    proof {
        reveal_strlit("xdg_toplevel");
    }
    let mut args = ArgReader::new(msg.message.args.as_slice());
    match args.string() {
        Some(app_id) => {
            if let Some(toplevel) = state.xdg_toplevels.get_mut(
                (msg.client_id, msg.message.object_id),
            ) {
                toplevel.app_id = Some(app_id);
            }
            assert(tree::toplevel_links(state@.xdg_toplevels) =~= tree::toplevel_links(
                old(state)@.xdg_toplevels,
            ));
        },
        None => malformed_request(state, msg, "xdg_toplevel"),
    }
}

/// Record a client's `set_min_size` or `set_max_size`.
///
/// Applied straight away rather than on the next commit as the protocol
/// specifies. The difference is only visible to a client that sets a limit and
/// starts a resize before committing, and the compositor keeps no other
/// double-buffered toplevel state to hang this off.
///
/// A min larger than a max is not treated as an error here. The two arrive in
/// separate requests, so a client raising both would momentarily look
/// inconsistent through no fault of its own; the resize path resolves the
/// overlap instead.
fn handle_set_size_hint(
    state: &mut CompositorState,
    msg: &WaylandProtocolMessageWithClientInfo,
    smallest: bool,
)
    requires
        old(state).wf(),
    ensures
        final(state).wf(),
        final(state)@ == old(state)@.size_hinted(msg@, smallest),
{
    proof {
        reveal_strlit("xdg_toplevel");
        reveal_strlit("xdg_toplevel: size hint must not be negative");
    }
    let mut args = ArgReader::new(msg.message.args.as_slice());
    let (width, height) = (args.i32(), args.i32());
    match (width, height) {
        (Some(width), Some(height)) => {
            if width < 0 || height < 0 {
                state.fail(
                    msg.client_id,
                    msg.message.object_id,
                    ERROR_INVALID_SIZE,
                    "xdg_toplevel: size hint must not be negative",
                );
                return ;
            }
            if let Some(toplevel) = state.xdg_toplevels.get_mut(
                (msg.client_id, msg.message.object_id),
            ) {
                if smallest {
                    toplevel.min_size = (width, height);
                } else {
                    toplevel.max_size = (width, height);
                }
            }
            assert(tree::toplevel_links(state@.xdg_toplevels) =~= tree::toplevel_links(
                old(state)@.xdg_toplevels,
            ));
        },
        _ => malformed_request(state, msg, "xdg_toplevel"),
    }
}

/// Start an interactive move, if the client is entitled to.
fn handle_move(state: &mut CompositorState, msg: &WaylandProtocolMessageWithClientInfo)
    requires
        old(state).wf(),
    ensures
        final(state).wf(),
        final(state)@ == old(state)@.move_asked(msg@),
{
    proof {
        reveal_strlit("xdg_toplevel");
    }
    let mut args = ArgReader::new(msg.message.args.as_slice());
    // move args: object seat, uint serial
    let (seat, serial) = (args.u32(), args.u32());
    match (seat, serial) {
        (Some(_), Some(serial)) => {
            if let Some(surface) = grab_target(
                state,
                msg.client_id,
                msg.message.object_id,
                serial,
            ) {
                state.start_move_grab(surface);
            }
        },
        _ => malformed_request(state, msg, "xdg_toplevel"),
    }
}

/// Start an interactive resize, if the client is entitled to.
fn handle_resize(state: &mut CompositorState, msg: &WaylandProtocolMessageWithClientInfo)
    requires
        old(state).wf(),
    ensures
        final(state).wf(),
        final(state)@ == old(state)@.resize_asked(msg@),
{
    proof {
        reveal_strlit("xdg_toplevel");
    }
    let mut args = ArgReader::new(msg.message.args.as_slice());
    // resize args: object seat, uint serial, uint edges
    let (seat, serial, edges) = (args.u32(), args.u32(), args.u32());
    match (seat, serial, edges) {
        (Some(_), Some(serial), Some(edges)) => {
            if let Some(surface) = grab_target(
                state,
                msg.client_id,
                msg.message.object_id,
                serial,
            ) {
                state.start_resize_grab(surface, ResizeEdges(edges));
            }
        },
        _ => malformed_request(state, msg, "xdg_toplevel"),
    }
}

/// Resolve a grab request to the window it should act on.
///
/// A client may only start a grab off the back of real user input, or any
/// client could seize the pointer whenever it liked. The serial it quotes must
/// be one that went out with a button press, and a button must still be down -
/// a grab beginning after the user let go has nothing to follow.
pub fn grab_target(
    state: &CompositorState,
    client_id: u32,
    toplevel_id: u32,
    serial: u32,
) -> (r: Option<ClientObjectId>)
    requires
        state.wf(),
    ensures
        r == state@.grab_target(client_id, toplevel_id, serial),
{
    if state.pressed_buttons.is_empty() {
        return None;
    }
    match state.last_button_serial.get(client_id) {
        Some(pressed) => {
            if *pressed != serial {
                return None;
            }
        },
        None => {
            return None;
        },
    }
    state.surface_of_toplevel((client_id, toplevel_id))
}

/// Every state a toplevel is currently in.
///
/// Built in one place and from compositor state rather than assembled at each
/// call site, because a configure carries the *complete* set - a client reading
/// one that omits `maximized` is being told the window is no longer maximized.
pub fn current_states(state: &CompositorState, key: ClientObjectId) -> (r: Vec<u32>)
    requires
        state.wf(),
    ensures
        r@ == state@.states_of(key),
        r@.len() <= 4,
{
    let mut states: Vec<u32> = Vec::new();
    let toplevel = match state.xdg_toplevels.get(key) {
        Some(t) => t,
        None => {
            return states;
        },
    };
    if toplevel.maximized {
        states.push(STATE_MAXIMIZED);
    }
    if toplevel.fullscreen {
        states.push(STATE_FULLSCREEN);
    }
    if let Some(grab) = &state.pointer_grab {
        if grab.toplevel.0 == key.0 && grab.toplevel.1 == key.1 {
            if let GrabKind::Resize { .. } = grab.kind {
                states.push(STATE_RESIZING);
            }
        }
    }
    if let (Some(surface), Some(focused)) = (state.surface_of_toplevel(key), state.focused_surface) {
        if surface.0 == focused.0 && surface.1 == focused.1 {
            states.push(STATE_ACTIVATED);
        }
    }
    assert(states@ =~= state@.states_of(key));
    states
}

/// Ask a client to adopt a size, telling it every state it is in, and pair the
/// request with the `xdg_surface.configure` that makes it take effect.
///
/// The two always travel together: a size only applies once the client
/// acknowledges the serial, so a toplevel configure sent without one is a
/// request the client is entitled to ignore forever.
pub fn configure(state: &mut CompositorState, key: ClientObjectId, width: i32, height: i32)
    requires
        old(state).wf(),
    ensures
        final(state).wf(),
        final(state)@ == old(state)@.toplevel_configured(key, width, height),
{
    // Before the configure, which is where the protocol puts it: a client sizes
    // itself against the bounds, so hearing them afterwards is too late.
    send_configure_bounds(state, key);
    let states = current_states(state, key);
    send_configure_with_states(state, key, width, height, &states);
    let xdg_surface_id: u32 = match state.xdg_toplevels.get(key) {
        Some(t) => t.xdg_surface_id,
        None => {
            return ;
        },
    };
    xdg_surface::configure(state, key.0, xdg_surface_id);
}

/// Ask a client to adopt a size during or at the end of an interactive resize.
///
/// The `resizing` state tells the client the drag is still in progress, which
/// is its cue to favour speed over quality - skipping reflow it would only
/// have to redo on the next motion event.
pub fn send_resize_configure(
    state: &mut CompositorState,
    client_id: u32,
    toplevel_id: u32,
    width: i32,
    height: i32,
    resizing: bool,
)
    requires
        old(state).wf(),
    ensures
        final(state).wf(),
        final(state)@ == old(state)@.resize_told((client_id, toplevel_id), width, height, resizing),
{
    let mut states = current_states(state, (client_id, toplevel_id));
    if resizing && !has_id(&states, STATE_RESIZING) {
        states.push(STATE_RESIZING);
    }
    send_configure_with_states(state, (client_id, toplevel_id), width, height, &states);
}

/// Send `xdg_toplevel.configure` with explicit states.
fn send_configure_with_states(
    state: &mut CompositorState,
    key: ClientObjectId,
    width: i32,
    height: i32,
    states: &Vec<u32>,
)
    requires
        old(state).wf(),
        states@.len() <= 0x1000,
    ensures
        final(state).wf(),
        final(state)@ == old(state)@.sent(key.0, configure_event(key.1, width, height, states@)),
{
    let args = ArgWriter::new().i32(width).i32(height).array_u32(states.as_slice()).build();
    state.send(key.0, build_message(key.1, CONFIGURE, args));
}

/// Send a configure sequence to set or clear the activated state on a toplevel.
///
/// The window is found from its `wl_surface`.
pub fn send_activated(
    state: &mut CompositorState,
    client_id: u32,
    wl_surface_id: u32,
    activated: bool,
)
    requires
        old(state).wf(),
    ensures
        final(state).wf(),
        final(state)@ == old(state)@.activation_told((client_id, wl_surface_id), activated),
{
    if state.clients.version_of(client_id, 0).is_none() {
        return ;
    }
    let (xdg_surface_id, toplevel_id): (u32, u32) = match state.xdg_ids_for_surface(
        (client_id, wl_surface_id),
    ) {
        Some(ids) => ids,
        None => {
            return ;
        },
    };
    // Who is activated is who has the focus, which the caller has already
    // moved - the flag is here for the leave half, where focus has moved on but
    // this window has not been told.
    let mut states = current_states(state, (client_id, toplevel_id));
    if !activated {
        remove_id(&mut states, STATE_ACTIVATED);
    } else if !has_id(&states, STATE_ACTIVATED) {
        states.push(STATE_ACTIVATED);
    }
    send_configure_with_states(state, (client_id, toplevel_id), 0, 0, &states);
    xdg_surface::configure(state, client_id, xdg_surface_id);
}

/// Send `xdg_toplevel.close`, asking the client to close the window.
///
/// This is a request, not a command: the client decides what to do, and may
/// prompt the user or ignore it entirely. A client that agrees destroys the
/// toplevel, which tears the window down through the normal destroy path.
pub fn send_close(state: &mut CompositorState, client_id: u32, toplevel_id: u32)
    requires
        old(state).wf(),
    ensures
        final(state).wf(),
        final(state)@ == old(state)@.close_told(client_id, toplevel_id),
{
    state.send(client_id, tell0(toplevel_id, CLOSE));
}

} // verus!

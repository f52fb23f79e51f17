//! The pointer: what it is over, what its buttons do, and scrolling.

use crate::drags::{finish_drag, update_drag};
use crate::focus::{raise_window, switch_focus};
use crate::grabs::{end_grab, send_pointers_left, update_grab};
use crate::hits::{dismiss_popups_outside_click, edges_for_point, hit_test, HitResult};
use crate::keys::{self, alt_held};
use crate::protocol::wl_pointer::{self, AXIS_HORIZONTAL, AXIS_VERTICAL};
use crate::shared::{MouseButton, ScrollSource};
use crate::state::{self, CompositorState, State};
use crate::wire::{self, fixed_local, fixed_to_i32};
use crate::workspace::ClientObjectId;
use vstd::prelude::*;

verus! {

/// evdev code of the left button
pub const BTN_LEFT: u32 = 0x110;

/// evdev code of the right button
pub const BTN_RIGHT: u32 = 0x111;

/// evdev code of the middle button
pub const BTN_MIDDLE: u32 = 0x112;

/// Surface-local distance one unit of scroll moves.
///
/// A wheel detent arrives as one line and clients expect rather more than one
/// pixel from it. The protocol has no unit of its own here - the value is
/// whatever the compositor says it is - so this is a feel setting rather than a
/// conversion.
pub const SCROLL_STEP: i64 = 10;

/// A scroll, in 256ths of a unit along each axis.
#[derive(Debug, Clone, Copy, PartialEq, Eq, Structural)]
pub struct Scroll {
    pub dx: i64,
    pub dy: i64,
    /// What did the scrolling
    pub source: ScrollSource,
    /// How far a wheel clicked, in 120ths of a detent
    pub v120_x: i32,
    /// How far a wheel clicked, in 120ths of a detent
    pub v120_y: i32,
}

/// The evdev code of a button.
pub open spec fn button_code(button: MouseButton) -> u32 {
    match button {
        MouseButton::Left => BTN_LEFT,
        MouseButton::Right => BTN_RIGHT,
        MouseButton::Middle => BTN_MIDDLE,
    }
}

/// How far a client is told a scroll goes.
pub open spec fn scroll_distance(d: i64) -> i32 {
    wire::fixed_clamped(d * SCROLL_STEP)
}

/// Tell one pointer that it is on a surface.
pub open spec fn entering(surface: ClientObjectId, x: i32, y: i32) -> spec_fn(State, u32) -> State {
    |s: State, pointer: u32|
        s.pointer_entered(surface.0, pointer, surface.1, x, y).pointer_framed(surface.0, pointer)
}

/// Tell one pointer where it is.
pub open spec fn moving(client_id: u32, time_ms: u32, x: i32, y: i32) -> spec_fn(
    State,
    u32,
) -> State {
    |s: State, pointer: u32|
        s.pointer_moved(client_id, pointer, time_ms, x, y).pointer_framed(client_id, pointer)
}

/// Tell one pointer of a button. A press is remembered, so that the client can
/// quote it.
pub open spec fn clicking(client_id: u32, time_ms: u32, button: u32, pressed: bool) -> spec_fn(
    State,
    u32,
) -> State {
    |s: State, pointer: u32|
        s.pointer_clicked(client_id, pointer, time_ms, button, pressed).press_remembered(
            client_id,
            s.next_serial,
            pressed,
        ).pointer_framed(client_id, pointer)
}

/// Tell one pointer of a scroll: what did it, then for each axis that moved how
/// far a wheel clicked and how far it goes, and that this was all.
pub open spec fn scrolling(client_id: u32, time_ms: u32, scroll: Scroll) -> spec_fn(
    State,
    u32,
) -> State {
    |s: State, pointer: u32|
        s.pointer_scroll_sourced(client_id, pointer, scroll.source).axis_told(
            client_id,
            pointer,
            time_ms,
            AXIS_VERTICAL,
            scroll.dy,
            scroll.v120_y,
        ).axis_told(
            client_id,
            pointer,
            time_ms,
            AXIS_HORIZONTAL,
            scroll.dx,
            scroll.v120_x,
        ).pointer_framed(client_id, pointer)
}

/// Tell one pointer that a touchpad scroll is over, for each axis that moved.
pub open spec fn scroll_ending(
    client_id: u32,
    time_ms: u32,
    vertical: bool,
    horizontal: bool,
) -> spec_fn(State, u32) -> State {
    |s: State, pointer: u32|
        s.pointer_scroll_sourced(client_id, pointer, ScrollSource::Finger).axis_stopped(
            client_id,
            pointer,
            time_ms,
            AXIS_VERTICAL,
            vertical,
        ).axis_stopped(client_id, pointer, time_ms, AXIS_HORIZONTAL, horizontal).pointer_framed(
            client_id,
            pointer,
        )
}

impl State {
    /// The state once a client's pointers have been told they are on a surface.
    pub open spec fn pointers_entered(self, surface: ClientObjectId, x: i32, y: i32) -> Self {
        state::each(self, self.pointers_of(surface.0), entering(surface, x, y))
    }

    /// The state once a client's pointers have been told where they are.
    pub open spec fn pointers_moved(self, client_id: u32, time_ms: u32, x: i32, y: i32) -> Self {
        state::each(self, self.pointers_of(client_id), moving(client_id, time_ms, x, y))
    }

    /// The state with the serial of a press remembered.
    pub open spec fn press_remembered(self, client_id: u32, serial: u32, pressed: bool) -> Self {
        if pressed {
            State { last_button_serial: self.last_button_serial.insert(client_id, serial), ..self }
        } else {
            self
        }
    }

    /// The state once the top window has the focus, if nothing had it.
    pub open spec fn focus_given(self) -> Self {
        match (self.focused_surface, self.top_visible()) {
            (None, Some(top)) if self.surfaces.contains_key(top) => self.focus_switched(top),
            _ => self,
        }
    }

    /// The state once the clients involved have been told that the pointer is
    /// on another surface.
    pub open spec fn pointer_crossed(self, hit: Option<HitResult>) -> Self {
        let to = match hit {
            Some(h) => Some(h.surface),
            None => None,
        };
        if to == self.pointer_surface {
            self
        } else {
            let s = match self.pointer_surface {
                Some(from) => self.pointers_left(from),
                None => self,
            };
            let s = State { pointer_surface: to, ..s };
            match hit {
                Some(h) => s.pointers_entered(
                    h.surface,
                    wire::local(s.cursor_x, h.surface_x),
                    wire::local(s.cursor_y, h.surface_y),
                ),
                None => s,
            }
        }
    }

    /// The state once whoever the pointer is on has been told where it is.
    pub open spec fn motion_told(self, time_ms: u32, hit: Option<HitResult>) -> Self {
        match hit {
            Some(h) => self.pointers_moved(
                h.surface.0,
                time_ms,
                wire::local(self.cursor_x, h.surface_x),
                wire::local(self.cursor_y, h.surface_y),
            ),
            None => self,
        }
    }

    /// The state once a pointer that nobody holds has been dealt with.
    pub open spec fn motion_delivered(self, time_ms: u32) -> Self {
        let s = self.focus_given();
        s.pointer_crossed(s.hit_here()).motion_told(time_ms, s.hit_here())
    }

    /// The state once the pointer is somewhere else.
    pub open spec fn motion_handled(self, time_ms: u32) -> Self {
        let s = self.dirtied();
        if s.pointer_grab is Some {
            s.grab_driven(s.cursor_x, s.cursor_y)
        } else if s.drag is Some {
            s.drag_driven(time_ms)
        } else {
            s.motion_delivered(time_ms)
        }
    }

    /// The state with a button held or let go of.
    pub open spec fn button_noted(self, button: u32, pressed: bool) -> Self {
        State {
            pressed_buttons: if pressed {
                self.pressed_buttons.insert(button)
            } else {
                self.pressed_buttons.remove(button)
            },
            ..self
        }
    }

    /// The state once a window has been taken hold of where the pointer is on
    /// it: by the left button to move it, by the right to resize it.
    pub open spec fn window_taken(self, button: MouseButton, toplevel: ClientObjectId) -> Self {
        let s = self.surface_raised(toplevel).focus_switched(toplevel);
        (match button {
            MouseButton::Left => s.move_started(toplevel),
            MouseButton::Right => s.resize_started(
                toplevel,
                s.edges_near(toplevel, s.pixel().0, s.pixel().1),
            ),
            MouseButton::Middle => s,
        }).dirtied()
    }

    /// The state once the window that was clicked has the focus, and the
    /// surface that was clicked the pointer.
    pub open spec fn window_clicked(self, hit: HitResult) -> Self {
        if self.focused_surface == Some(hit.toplevel) {
            self
        } else {
            let s = self.surface_raised(hit.toplevel).dirtied().focus_switched(hit.toplevel);
            if s.pointer_surface == Some(hit.surface) {
                s
            } else {
                State { pointer_surface: Some(hit.surface), ..s }.pointers_entered(
                    hit.surface,
                    wire::local(self.cursor_x, hit.surface_x),
                    wire::local(self.cursor_y, hit.surface_y),
                )
            }
        }
    }

    /// The state once whoever has the pointer has been told of a button.
    pub open spec fn button_told(self, time_ms: u32, button: u32, pressed: bool) -> Self {
        match self.pointer_surface {
            Some(surface) => state::each(
                self,
                self.pointers_of(surface.0),
                clicking(surface.0, time_ms, button, pressed),
            ),
            None => self,
        }
    }

    /// The state once a press that is not the compositor's own has been dealt
    /// with.
    pub open spec fn press_delivered(self, time_ms: u32, button: u32) -> Self {
        let (s, dismissed) = self.popups_dismissed();
        if dismissed {
            s
        } else {
            (match s.hit_here() {
                Some(hit) => s.window_clicked(hit),
                None => s,
            }).button_told(time_ms, button, true)
        }
    }

    /// The state once a button that has been noted has been acted on.
    pub open spec fn button_acted(self, time_ms: u32, button: MouseButton, pressed: bool) -> Self {
        if self.pointer_grab is Some {
            if pressed {
                self
            } else {
                self.grab_ended()
            }
        } else if self.drag is Some {
            if pressed {
                self
            } else {
                self.drag_finished()
            }
        } else if !pressed {
            self.button_told(time_ms, button_code(button), false)
        } else {
            match self.hit_here() {
                Some(hit) if keys::has_alt(self.pressed_keys) => self.window_taken(
                    button,
                    hit.toplevel,
                ),
                _ => self.press_delivered(time_ms, button_code(button)),
            }
        }
    }

    /// The state once a button has been pressed or let go of.
    pub open spec fn button_handled(self, time_ms: u32, button: MouseButton, pressed: bool) -> Self {
        self.button_noted(button_code(button), pressed).button_acted(time_ms, button, pressed)
    }

    /// The state once a pointer has been told how far a scroll goes along an
    /// axis, unless it does not move it.
    pub open spec fn axis_told(
        self,
        client_id: u32,
        pointer_id: u32,
        time_ms: u32,
        axis: u32,
        d: i64,
        v120: i32,
    ) -> Self {
        if d == 0 {
            self
        } else {
            self.pointer_stepped(client_id, pointer_id, axis, v120).pointer_scrolled(
                client_id,
                pointer_id,
                time_ms,
                axis,
                scroll_distance(d),
            )
        }
    }

    /// The state once a pointer has been told that an axis stopped, if it was
    /// moving.
    pub open spec fn axis_stopped(
        self,
        client_id: u32,
        pointer_id: u32,
        time_ms: u32,
        axis: u32,
        was_moving: bool,
    ) -> Self {
        if was_moving {
            self.pointer_scroll_stopped(client_id, pointer_id, time_ms, axis)
        } else {
            self
        }
    }

    /// The state with the axes that a touchpad is moving noted.
    pub open spec fn scroll_noted(self, scroll: Scroll) -> Self {
        if scroll.source == ScrollSource::Finger {
            State {
                scrolling_vertical: self.scrolling_vertical || scroll.dy != 0,
                scrolling_horizontal: self.scrolling_horizontal || scroll.dx != 0,
                ..self
            }
        } else {
            self
        }
    }

    /// The state once a scroll has been dealt with.
    pub open spec fn scroll_handled(self, time_ms: u32, scroll: Scroll) -> Self {
        match self.pointer_surface {
            Some(surface) => {
                let s = self.scroll_noted(scroll);
                state::each(
                    s,
                    s.pointers_of(surface.0),
                    scrolling(surface.0, time_ms, scroll),
                )
            },
            None => self,
        }
    }

    /// The state once a touchpad scroll is over.
    pub open spec fn scroll_end_handled(self, time_ms: u32) -> Self {
        let s = State { scrolling_vertical: false, scrolling_horizontal: false, ..self };
        match self.pointer_surface {
            Some(surface) if self.scrolling_vertical || self.scrolling_horizontal => state::each(
                s,
                s.pointers_of(surface.0),
                scroll_ending(
                    surface.0,
                    time_ms,
                    self.scrolling_vertical,
                    self.scrolling_horizontal,
                ),
            ),
            _ => s,
        }
    }
}

/// Tell a client's pointers that they are on a surface.
fn send_pointers_entered(state: &mut CompositorState, surface: ClientObjectId, x: i32, y: i32)
    requires
        old(state).wf(),
    ensures
        final(state).wf(),
        final(state)@ == old(state)@.pointers_entered(surface, x, y),
{
    let pointers = wl_pointer::pointers_of(state, surface.0);
    let ghost start = state@;
    let ghost f = entering(surface, x, y);
    let mut i: usize = 0;
    proof {
        state::lemma_each_ends(start, pointers@, f);
    }
    while i < pointers.len()
        invariant
            state.wf(),
            i <= pointers@.len(),
            f == entering(surface, x, y),
            state@ == state::each(start, pointers@.take(i as int), f),
        decreases pointers@.len() - i,
    {
        proof {
            state::lemma_each_step(start, pointers@, f, i as int);
        }
        wl_pointer::send_enter(state, surface.0, pointers[i], surface.1, x, y);
        wl_pointer::send_frame(state, surface.0, pointers[i]);
        i = i + 1;
    }
    proof {
        state::lemma_each_ends(start, pointers@, f);
    }
}

/// Tell a client's pointers where they are.
fn send_pointers_moved(state: &mut CompositorState, client_id: u32, time_ms: u32, x: i32, y: i32)
    requires
        old(state).wf(),
    ensures
        final(state).wf(),
        final(state)@ == old(state)@.pointers_moved(client_id, time_ms, x, y),
{
    let pointers = wl_pointer::pointers_of(state, client_id);
    let ghost start = state@;
    let ghost f = moving(client_id, time_ms, x, y);
    let mut i: usize = 0;
    proof {
        state::lemma_each_ends(start, pointers@, f);
    }
    while i < pointers.len()
        invariant
            state.wf(),
            i <= pointers@.len(),
            f == moving(client_id, time_ms, x, y),
            state@ == state::each(start, pointers@.take(i as int), f),
        decreases pointers@.len() - i,
    {
        proof {
            state::lemma_each_step(start, pointers@, f, i as int);
        }
        wl_pointer::send_motion(state, client_id, pointers[i], time_ms, x, y);
        wl_pointer::send_frame(state, client_id, pointers[i]);
        i = i + 1;
    }
    proof {
        state::lemma_each_ends(start, pointers@, f);
    }
}

/// Give the top window the focus, if nothing has it yet.
fn give_focus(state: &mut CompositorState)
    requires
        old(state).wf(),
    ensures
        final(state).wf(),
        final(state)@ == old(state)@.focus_given(),
{
    if state.focused_surface.is_none() {
        if let Some(top) = state.top_visible_toplevel() {
            if state.surfaces.contains_key(top) {
                switch_focus(state, top);
            }
        }
    }
}

/// Send pointer enter/leave when the surface under the cursor changes.
fn cross_surfaces(state: &mut CompositorState, hit: Option<HitResult>)
    requires
        old(state).wf(),
    ensures
        final(state).wf(),
        final(state)@ == old(state)@.pointer_crossed(hit),
{
    let to = match hit {
        Some(h) => Some(h.surface),
        None => None,
    };
    let same = match (to, state.pointer_surface) {
        (Some(a), Some(b)) => a.0 == b.0 && a.1 == b.1,
        (None, None) => true,
        _ => false,
    };
    if same {
        return ;
    }
    if let Some(from) = state.pointer_surface {
        send_pointers_left(state, from);
    }
    state.pointer_surface = to;
    if let Some(h) = hit {
        let (x, y): (i32, i32) = (
            fixed_local(state.cursor_x, h.surface_x),
            fixed_local(state.cursor_y, h.surface_y),
        );
        send_pointers_entered(state, h.surface, x, y);
    }
}

/// Work out what the pointer is now over, and tell the client about it.
///
/// Reads the position from state rather than taking one, because by this point
/// it has been constrained onto an output and the raw value the backend sent is
/// no longer the truth.
pub fn deliver_pointer_motion(state: &mut CompositorState, time_ms: u32)
    requires
        old(state).wf(),
    ensures
        final(state).wf(),
        final(state)@ == old(state)@.motion_handled(time_ms),
{
    state.dirty = true;
    // A grab owns the pointer: motion drives the window, and the client hears
    // nothing until the button is up.
    if state.pointer_grab.is_some() {
        let (x, y): (i64, i64) = (state.cursor_x, state.cursor_y);
        update_grab(state, x, y);
        return ;
    }
    // A drag owns it for the same reason, and delivers to the surface
    // underneath through its data device rather than its pointer.
    if state.drag.is_some() {
        update_drag(state, time_ms);
        return ;
    }
    deliver_free_motion(state, time_ms);
}

/// Deal with the motion of a pointer that nobody holds.
fn deliver_free_motion(state: &mut CompositorState, time_ms: u32)
    requires
        old(state).wf(),
    ensures
        final(state).wf(),
        final(state)@ == old(state)@.motion_delivered(time_ms),
{
    give_focus(state);
    // Determine which specific surface the pointer is over
    let hit = hit_test(state, fixed_to_i32(state.cursor_x), fixed_to_i32(state.cursor_y));
    cross_surfaces(state, hit);
    // Send motion to the current pointer surface
    if let Some(h) = hit {
        let (x, y): (i32, i32) = (
            fixed_local(state.cursor_x, h.surface_x),
            fixed_local(state.cursor_y, h.surface_y),
        );
        send_pointers_moved(state, h.surface.0, time_ms, x, y);
    }
}

/// Take hold of a window with the pointer.
///
/// Alt+drag moves and resizes without the client's help, which is the only way
/// for one that draws no usable decorations.
fn take_window(state: &mut CompositorState, button: MouseButton, toplevel: ClientObjectId)
    requires
        old(state).wf(),
    ensures
        final(state).wf(),
        final(state)@ == old(state)@.window_taken(button, toplevel),
{
    raise_window(state, toplevel);
    switch_focus(state, toplevel);
    match button {
        MouseButton::Left => state.start_move_grab(toplevel),
        MouseButton::Right => {
            let edges = edges_for_point(
                state,
                toplevel,
                fixed_to_i32(state.cursor_x),
                fixed_to_i32(state.cursor_y),
            );
            state.start_resize_grab(toplevel, edges);
        },
        MouseButton::Middle => {},
    }
    state.dirty = true;
}

/// Give the window that was clicked the focus, unless it has it, and the
/// surface that was clicked the pointer.
fn click_window(state: &mut CompositorState, hit: HitResult)
    requires
        old(state).wf(),
    ensures
        final(state).wf(),
        final(state)@ == old(state)@.window_clicked(hit),
{
    if let Some(focused) = state.focused_surface {
        if focused.0 == hit.toplevel.0 && focused.1 == hit.toplevel.1 {
            return ;
        }
    }
    let (x, y): (i32, i32) = (
        fixed_local(state.cursor_x, hit.surface_x),
        fixed_local(state.cursor_y, hit.surface_y),
    );
    // Raise to top of its workspace
    raise_window(state, hit.toplevel);
    state.dirty = true;
    switch_focus(state, hit.toplevel);
    // Update pointer surface to the specific surface under cursor
    let there = match state.pointer_surface {
        Some(p) => p.0 == hit.surface.0 && p.1 == hit.surface.1,
        None => false,
    };
    if !there {
        state.pointer_surface = Some(hit.surface);
        send_pointers_entered(state, hit.surface, x, y);
    }
}

/// Tell whoever has the pointer of a button.
fn send_buttons(state: &mut CompositorState, time_ms: u32, button: u32, pressed: bool)
    requires
        old(state).wf(),
    ensures
        final(state).wf(),
        final(state)@ == old(state)@.button_told(time_ms, button, pressed),
{
    let surface = match state.pointer_surface {
        Some(surface) => surface,
        None => {
            return ;
        },
    };
    let pointers = wl_pointer::pointers_of(state, surface.0);
    let ghost start = state@;
    let ghost f = clicking(surface.0, time_ms, button, pressed);
    let mut i: usize = 0;
    proof {
        state::lemma_each_ends(start, pointers@, f);
    }
    while i < pointers.len()
        invariant
            state.wf(),
            i <= pointers@.len(),
            f == clicking(surface.0, time_ms, button, pressed),
            state@ == state::each(start, pointers@.take(i as int), f),
        decreases pointers@.len() - i,
    {
        proof {
            state::lemma_each_step(start, pointers@, f, i as int);
        }
        let serial: u32 = wl_pointer::send_button(
            state,
            surface.0,
            pointers[i],
            time_ms,
            button,
            pressed,
        );
        // Remembered so the client can quote it if this press turns into a move
        // or resize.
        if pressed {
            state.last_button_serial.insert(surface.0, serial);
        }
        wl_pointer::send_frame(state, surface.0, pointers[i]);
        i = i + 1;
    }
    proof {
        state::lemma_each_ends(start, pointers@, f);
    }
}

/// Deal with a press that is not the compositor's own.
fn deliver_press(state: &mut CompositorState, time_ms: u32, button: u32)
    requires
        old(state).wf(),
    ensures
        final(state).wf(),
        final(state)@ == old(state)@.press_delivered(time_ms, button),
{
    // A click outside them dismisses grabbed popups, and is used up by that
    if dismiss_popups_outside_click(state) {
        return ;
    }
    // Hit-test and raise/focus the clicked surface
    if let Some(hit) = hit_test(state, fixed_to_i32(state.cursor_x), fixed_to_i32(state.cursor_y)) {
        click_window(state, hit);
    }
    send_buttons(state, time_ms, button, true);
}

/// A button has been pressed or let go of.
pub fn mouse_button(state: &mut CompositorState, time_ms: u32, button: MouseButton, pressed: bool)
    requires
        old(state).wf(),
    ensures
        final(state).wf(),
        final(state)@ == old(state)@.button_handled(time_ms, button, pressed),
{
    let code: u32 = match button {
        MouseButton::Left => BTN_LEFT,
        MouseButton::Right => BTN_RIGHT,
        MouseButton::Middle => BTN_MIDDLE,
    };
    if pressed {
        state.pressed_buttons.insert(code);
    } else {
        state.pressed_buttons.remove(code);
    }
    act_on_button(state, time_ms, button, code, pressed);
}

/// Act on a button that has been noted.
fn act_on_button(
    state: &mut CompositorState,
    time_ms: u32,
    button: MouseButton,
    code: u32,
    pressed: bool,
)
    requires
        old(state).wf(),
        code == button_code(button),
    ensures
        final(state).wf(),
        final(state)@ == old(state)@.button_acted(time_ms, button, pressed),
{
    // A grab runs until the button comes up, and swallows everything in
    // between.
    if state.pointer_grab.is_some() {
        if !pressed {
            end_grab(state);
        }
        return ;
    }
    // So does a drag, and for the same reason: the compositor owns the pointer,
    // and what the button does is decide how the drag ends.
    if state.drag.is_some() {
        if !pressed {
            finish_drag(state);
        }
        return ;
    }
    if !pressed {
        send_buttons(state, time_ms, code, false);
        return ;
    }
    if alt_held(state) {
        let (px, py): (i32, i32) = (fixed_to_i32(state.cursor_x), fixed_to_i32(state.cursor_y));
        if let Some(hit) = hit_test(state, px, py) {
            take_window(state, button, hit.toplevel);
            return ;
        }
    }
    deliver_press(state, time_ms, code);
}

/// How far a client is told a scroll goes.
fn distance(d: i64) -> (r: i32)
    ensures
        r == scroll_distance(d),
{
    assert(-0x7fff_ffff_ffff_ffff_ffff <= d * SCROLL_STEP <= 0x7fff_ffff_ffff_ffff_ffff)
        by (nonlinear_arith)
        requires
            SCROLL_STEP == 10,
    ;
    let far: i128 = d as i128 * SCROLL_STEP as i128;
    if far > i32::MAX as i128 {
        i32::MAX
    } else if far < i32::MIN as i128 {
        i32::MIN
    } else {
        far as i32
    }
}

/// Tell a pointer how far a scroll goes along an axis, if it moves it.
fn send_axis_moved(
    state: &mut CompositorState,
    client_id: u32,
    pointer_id: u32,
    time_ms: u32,
    axis: u32,
    d: i64,
    v120: i32,
)
    requires
        old(state).wf(),
    ensures
        final(state).wf(),
        final(state)@ == old(state)@.axis_told(client_id, pointer_id, time_ms, axis, d, v120),
{
    if d != 0 {
        wl_pointer::send_axis_steps(state, client_id, pointer_id, axis, v120);
        wl_pointer::send_axis(state, client_id, pointer_id, time_ms, axis, distance(d));
    }
}

/// Deliver a scroll to whichever client has the pointer.
///
/// The order within the frame is the protocol's and is not arbitrary: the
/// source first, so a client knows what kind of scroll it is about to be told
/// about; then the detent count for an axis, before the distance it explains;
/// then the distance; then the frame that says the picture is complete. A
/// client acting on the distance before it knows the source cannot decide
/// whether the scroll may have momentum.
pub fn deliver_scroll(state: &mut CompositorState, time_ms: u32, scroll: Scroll)
    requires
        old(state).wf(),
    ensures
        final(state).wf(),
        final(state)@ == old(state)@.scroll_handled(time_ms, scroll),
{
    let surface = match state.pointer_surface {
        Some(surface) => surface,
        None => {
            return ;
        },
    };
    // A touchpad scroll ends, and the axes it was moving are the ones that have
    // to be told so. A wheel never stops in this sense - it is between detents,
    // not finished.
    if let ScrollSource::Finger = scroll.source {
        state.scrolling_vertical = state.scrolling_vertical || scroll.dy != 0;
        state.scrolling_horizontal = state.scrolling_horizontal || scroll.dx != 0;
    }
    let pointers = wl_pointer::pointers_of(state, surface.0);
    let ghost start = state@;
    let ghost f = scrolling(surface.0, time_ms, scroll);
    let mut i: usize = 0;
    proof {
        state::lemma_each_ends(start, pointers@, f);
    }
    while i < pointers.len()
        invariant
            state.wf(),
            i <= pointers@.len(),
            f == scrolling(surface.0, time_ms, scroll),
            state@ == state::each(start, pointers@.take(i as int), f),
        decreases pointers@.len() - i,
    {
        proof {
            state::lemma_each_step(start, pointers@, f, i as int);
        }
        wl_pointer::send_axis_source(state, surface.0, pointers[i], scroll.source);
        send_axis_moved(
            state,
            surface.0,
            pointers[i],
            time_ms,
            AXIS_VERTICAL,
            scroll.dy,
            scroll.v120_y,
        );
        send_axis_moved(
            state,
            surface.0,
            pointers[i],
            time_ms,
            AXIS_HORIZONTAL,
            scroll.dx,
            scroll.v120_x,
        );
        wl_pointer::send_frame(state, surface.0, pointers[i]);
        i = i + 1;
    }
    proof {
        state::lemma_each_ends(start, pointers@, f);
    }
}

/// Tell the client a touchpad scroll has finished.
///
/// Only the axes that were actually moving are stopped: an `axis_stop` for an
/// axis that never scrolled is a statement about something that never happened.
pub fn deliver_scroll_end(state: &mut CompositorState, time_ms: u32)
    requires
        old(state).wf(),
    ensures
        final(state).wf(),
        final(state)@ == old(state)@.scroll_end_handled(time_ms),
{
    let (vertical, horizontal) = (state.scrolling_vertical, state.scrolling_horizontal);
    state.scrolling_vertical = false;
    state.scrolling_horizontal = false;
    if !vertical && !horizontal {
        return ;
    }
    let surface = match state.pointer_surface {
        Some(surface) => surface,
        None => {
            return ;
        },
    };
    let pointers = wl_pointer::pointers_of(state, surface.0);
    let ghost start = state@;
    let ghost f = scroll_ending(surface.0, time_ms, vertical, horizontal);
    let mut i: usize = 0;
    proof {
        state::lemma_each_ends(start, pointers@, f);
    }
    while i < pointers.len()
        invariant
            state.wf(),
            i <= pointers@.len(),
            f == scroll_ending(surface.0, time_ms, vertical, horizontal),
            state@ == state::each(start, pointers@.take(i as int), f),
        decreases pointers@.len() - i,
    {
        proof {
            state::lemma_each_step(start, pointers@, f, i as int);
        }
        wl_pointer::send_axis_source(state, surface.0, pointers[i], ScrollSource::Finger);
        if vertical {
            wl_pointer::send_axis_stop(state, surface.0, pointers[i], time_ms, AXIS_VERTICAL);
        }
        if horizontal {
            wl_pointer::send_axis_stop(state, surface.0, pointers[i], time_ms, AXIS_HORIZONTAL);
        }
        wl_pointer::send_frame(state, surface.0, pointers[i]);
        i = i + 1;
    }
    proof {
        state::lemma_each_ends(start, pointers@, f);
    }
}

} // verus!

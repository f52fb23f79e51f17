//! Keys: the compositor's own bindings, and everything else to whoever has the
//! focus.

use crate::departure;
use crate::focus::{self, switch_focus};
use crate::protocol::{wl_keyboard, xdg_toplevel};
use crate::shared::OutputId;
use crate::state::{self, CompositorState, State};
use crate::table::KeySet;
use crate::workspace::{self, ClientObjectId, WorkspaceView};
use vstd::prelude::*;

verus! {

/// evdev keycode for Escape, which abandons a drag
pub const KEY_ESC: u32 = 1;

/// evdev keycode for Tab
pub const KEY_TAB: u32 = 15;

/// evdev keycode for the left Alt
pub const KEY_LEFTALT: u32 = 56;

/// evdev keycode for F4
pub const KEY_F4: u32 = 62;

/// evdev keycode for the right Alt
pub const KEY_RIGHTALT: u32 = 100;

/// How far an X keycode is ahead of the evdev keycode of the same key.
pub const KEYCODE_OFFSET: u32 = 8;

/// A key combination the compositor acts on itself rather than forwarding.
#[derive(Debug, Clone, Copy, PartialEq, Eq, Structural)]
pub enum Binding {
    /// Alt+F4 - ask the focused toplevel to close.
    CloseWindow,
    /// Alt+Tab - move focus to the next toplevel.
    CycleFocus,
}

/// The modifiers in force, as a keyboard is told of them.
#[derive(Debug, Clone, Copy, PartialEq, Eq, Structural)]
pub struct Modifiers {
    pub depressed: u32,
    pub latched: u32,
    pub locked: u32,
    pub group: u32,
}

/// Either Alt is among the keys held.
pub open spec fn has_alt(pressed: Set<u32>) -> bool {
    pressed.contains(KEY_LEFTALT) || pressed.contains(KEY_RIGHTALT)
}

/// What pressing a key is bound to, with some keys held.
pub open spec fn bound(key: u32, pressed: Set<u32>) -> Option<Binding> {
    if !has_alt(pressed) {
        None
    } else if key == KEY_F4 {
        Some(Binding::CloseWindow)
    } else if key == KEY_TAB {
        Some(Binding::CycleFocus)
    } else {
        None
    }
}

/// The evdev keycode of a key.
pub open spec fn evdev_of(keycode: u32) -> u32 {
    if keycode >= KEYCODE_OFFSET {
        (keycode - KEYCODE_OFFSET) as u32
    } else {
        0
    }
}

/// Tell one keyboard of a key and the modifiers that follow from it.
pub open spec fn typing(client_id: u32, time_ms: u32, key: u32, pressed: bool, m: Modifiers) -> spec_fn(
    State,
    u32,
) -> State {
    |s: State, keyboard: u32|
        s.key_told(client_id, keyboard, time_ms, key, pressed).modifiers_told(
            client_id,
            keyboard,
            m.depressed,
            m.latched,
            m.locked,
            m.group,
        )
}

/// A stack with what was at its bottom on top.
pub open spec fn rotated(stack: Seq<ClientObjectId>) -> Seq<ClientObjectId> {
    stack.remove(0).push(stack[0])
}

impl State {
    /// The state once the window with the focus has been asked to close.
    pub open spec fn close_asked(self) -> Self {
        match self.focused_surface {
            Some(surface) => match self.xdg_ids_for(surface) {
                Some((_, toplevel_id)) => self.close_told(surface.0, toplevel_id),
                None => self,
            },
            None => self,
        }
    }

    /// The output whose windows the focus goes round.
    pub open spec fn cycled_output(self) -> Option<OutputId> {
        match self.focused_surface {
            Some(surface) if self.workspaces.output_of(surface) is Some => self.workspaces.output_of(
                surface,
            ),
            _ => self.home(),
        }
    }

    /// The state once the focus has moved on to the next window.
    pub open spec fn focus_cycled(self) -> Self {
        match self.cycled_output() {
            Some(id) => match self.workspaces.active(id) {
                Some(w) if w.stack.len() >= 2 => State {
                    workspaces: self.workspaces.with_active(
                        id,
                        WorkspaceView { stack: rotated(w.stack), ..w },
                    ),
                    ..self
                }.dirtied().focus_switched(w.stack[0]),
                _ => self,
            },
            None => self,
        }
    }

    /// The state with a key held or let go of.
    pub open spec fn key_noted(self, key: u32, pressed: bool) -> Self {
        State {
            pressed_keys: if pressed {
                self.pressed_keys.insert(key)
            } else {
                self.pressed_keys.remove(key)
            },
            ..self
        }
    }

    /// The state with a key whose release nobody is to hear of.
    pub open spec fn key_consumed(self, key: u32) -> Self {
        State { consumed_keys: self.consumed_keys.insert(key), ..self }
    }

    /// The state once whoever has the focus has been told of a key.
    pub open spec fn key_delivered(
        self,
        time_ms: u32,
        key: u32,
        pressed: bool,
        modifiers: Modifiers,
    ) -> Self {
        match self.focused_surface {
            Some(surface) => state::each(
                self,
                self.keyboards_of(surface.0),
                typing(surface.0, time_ms, key, pressed, modifiers),
            ),
            None => self,
        }
    }

    /// The state once a key that is now held has been acted on.
    pub open spec fn press_handled(self, time_ms: u32, key: u32, modifiers: Modifiers) -> Self {
        if key == KEY_ESC && self.drag is Some {
            self.drag_cancelled(true).key_consumed(key)
        } else {
            match bound(key, self.pressed_keys) {
                Some(Binding::CloseWindow) => self.key_consumed(key).close_asked(),
                Some(Binding::CycleFocus) => self.key_consumed(key).focus_cycled(),
                None => self.key_delivered(time_ms, key, true, modifiers),
            }
        }
    }

    /// The state once a key that is no longer held has been acted on.
    pub open spec fn release_handled(self, time_ms: u32, key: u32, modifiers: Modifiers) -> Self {
        if self.consumed_keys.contains(key) {
            State { consumed_keys: self.consumed_keys.remove(key), ..self }
        } else {
            self.key_delivered(time_ms, key, false, modifiers)
        }
    }

    /// The state once a key has been pressed or let go of.
    pub open spec fn key_handled(
        self,
        time_ms: u32,
        keycode: u32,
        pressed: bool,
        modifiers: Modifiers,
    ) -> Self {
        let key = evdev_of(keycode);
        let s = self.key_noted(key, pressed);
        if pressed {
            s.press_handled(time_ms, key, modifiers)
        } else {
            s.release_handled(time_ms, key, modifiers)
        }
    }
}

/// A stack turned round some number of times.
pub open spec fn rotated_times(stack: Seq<ClientObjectId>, n: nat) -> Seq<ClientObjectId>
    decreases n,
{
    if n == 0 {
        stack
    } else {
        rotated(rotated_times(stack, (n - 1) as nat))
    }
}

/// Going round the windows brings each of them to the top in turn, from the
/// bottom one up, and once all have been there the stack is as it was.
pub proof fn law_cycling_visits_every_window(stack: Seq<ClientObjectId>, n: nat)
    requires
        0 < n <= stack.len(),
    ensures
        rotated_times(stack, n).last() == stack[n - 1],
        rotated_times(stack, stack.len()) == stack,
{
    lemma_rotated_times(stack, n);
    lemma_rotated_times(stack, stack.len());
    assert(stack.skip(stack.len() as int) + stack.take(stack.len() as int) =~= stack);
}

proof fn lemma_rotated_times(stack: Seq<ClientObjectId>, n: nat)
    requires
        n <= stack.len(),
    ensures
        rotated_times(stack, n) == stack.skip(n as int) + stack.take(n as int),
    decreases n,
{
    if n == 0 {
        assert(stack.skip(0) + stack.take(0) =~= stack);
    } else {
        lemma_rotated_times(stack, (n - 1) as nat);
        assert(rotated(stack.skip(n - 1) + stack.take(n - 1)) =~= stack.skip(n as int)
            + stack.take(n as int));
    }
}

/// A key whose press was the compositor's own is let go of without any client
/// hearing of it, and its next press is an ordinary one again.
pub proof fn law_consumed_releases_are_silent(
    s: State,
    time_ms: u32,
    keycode: u32,
    modifiers: Modifiers,
)
    requires
        s.consumed_keys.contains(evdev_of(keycode)),
    ensures
        ({
            let after = s.key_handled(time_ms, keycode, false, modifiers);
            &&& after.clients == s.clients
            &&& !after.consumed_keys.contains(evdev_of(keycode))
            &&& !after.pressed_keys.contains(evdev_of(keycode))
        }),
{
}

/// A key that means something to the compositor is consumed when it is pressed,
/// so that its release is silent too: a bound one, and Escape during a drag.
pub proof fn law_bound_presses_are_consumed(
    s: State,
    time_ms: u32,
    keycode: u32,
    modifiers: Modifiers,
)
    requires
        bound(evdev_of(keycode), s.pressed_keys.insert(evdev_of(keycode))) is Some || (evdev_of(
            keycode,
        ) == KEY_ESC && s.drag is Some),
    ensures
        s.key_handled(time_ms, keycode, true, modifiers).consumed_keys.contains(evdev_of(keycode)),
{
    let key = evdev_of(keycode);
    let held = s.key_noted(key, true);
    if key == KEY_ESC && s.drag is Some {
        departure::lemma_cancelled(held, true);
    } else {
        let consumed = held.key_consumed(key);
        lemma_cycling_only_moves_focus(consumed);
    }
}

/// Going round the windows changes nothing but their order, who has the focus,
/// and what clients have been told of it.
proof fn lemma_cycling_only_moves_focus(s: State)
    ensures
        s.focus_cycled().consumed_keys == s.consumed_keys,
{
    match s.cycled_output() {
        Some(id) => match s.workspaces.active(id) {
            Some(w) if w.stack.len() >= 2 => {
                let turned = State {
                    workspaces: s.workspaces.with_active(
                        id,
                        WorkspaceView { stack: rotated(w.stack), ..w },
                    ),
                    ..s
                }.dirtied();
                focus::law_the_focus_goes_where_it_is_sent(turned, w.stack[0]);
            },
            _ => {},
        },
        None => {},
    }
}

/// Going round the windows of an output gives the bottom one the focus and puts
/// it on top.
pub proof fn law_cycling_brings_up_the_bottom_window(s: State, id: OutputId)
    requires
        s.cycled_output() == Some(id),
        s.workspaces.visible_stack(id).len() >= 2,
    ensures
        s.focus_cycled().focused_surface == Some(s.workspaces.visible_stack(id)[0]),
        s.focus_cycled().workspaces.visible_stack(id) == rotated(s.workspaces.visible_stack(id)),
{
    let w = s.workspaces.active(id).unwrap();
    let turned = State {
        workspaces: s.workspaces.with_active(
            id,
            WorkspaceView { stack: rotated(w.stack), ..w },
        ),
        ..s
    }.dirtied();
    focus::law_the_focus_goes_where_it_is_sent(turned, w.stack[0]);
    workspace::lemma_active_replaced(
        s.workspaces,
        id,
        WorkspaceView { stack: rotated(w.stack), ..w },
    );
}

impl State {
    /// The state once the focus has moved on some number of times.
    pub open spec fn focus_cycled_times(self, n: nat) -> Self
        decreases n,
    {
        if n == 0 {
            self
        } else {
            self.focus_cycled_times((n - 1) as nat).focus_cycled()
        }
    }
}

/// Moving the focus on again and again brings it to each of the windows showing
/// on an output in turn, from the bottom one up. Nothing on any other output
/// moves, and once all have had it every window is where it was.
pub proof fn law_the_focus_visits_every_window(s: State, id: OutputId, other: OutputId, n: nat)
    requires
        s.workspaces.sound(),
        s.cycled_output() == Some(id),
        s.workspaces.visible_stack(id).len() >= 2,
        0 < n <= s.workspaces.visible_stack(id).len(),
    ensures
        s.focus_cycled_times(n).focused_surface == Some(s.workspaces.visible_stack(id)[n - 1]),
        s.focus_cycled_times(n).workspaces.visible_stack(id) == rotated_times(
            s.workspaces.visible_stack(id),
            n,
        ),
        other != id ==> s.focus_cycled_times(n).workspaces.visible_stack(other)
            == s.workspaces.visible_stack(other),
        s.focus_cycled_times(s.workspaces.visible_stack(id).len()).workspaces == s.workspaces,
{
    let w = s.workspaces.active(id).unwrap();
    lemma_cycled_times(s, id, n);
    lemma_cycled_times(s, id, w.stack.len());
    law_cycling_visits_every_window(w.stack, n);
    let turned = WorkspaceView { stack: rotated_times(w.stack, n), ..w };
    workspace::lemma_active_replaced(s.workspaces, id, turned);
    workspace::lemma_shown_elsewhere(s.workspaces, id, turned, turned, other);
}

proof fn lemma_cycled_times(s: State, id: OutputId, n: nat)
    requires
        s.workspaces.sound(),
        s.cycled_output() == Some(id),
        s.workspaces.visible_stack(id).len() >= 2,
        n <= s.workspaces.visible_stack(id).len(),
    ensures
        ({
            let w = s.workspaces.active(id).unwrap();
            let t = s.focus_cycled_times(n);
            &&& t.workspaces == s.workspaces.with_active(
                id,
                WorkspaceView { stack: rotated_times(w.stack, n), ..w },
            )
            &&& t.workspaces.sound()
            &&& n > 0 ==> t.focused_surface == Some(w.stack[n - 1])
            &&& t.cycled_output() == Some(id)
        }),
    decreases n,
{
    let w = s.workspaces.active(id).unwrap();
    if n == 0 {
        workspace::lemma_shown_elsewhere(s.workspaces, id, w, w, id);
    } else {
        let m = (n - 1) as nat;
        lemma_cycled_times(s, id, m);
        lemma_rotated_times(w.stack, m);
        lemma_rotated_times(w.stack, n);
        let t = s.focus_cycled_times(m);
        let shown = WorkspaceView { stack: rotated_times(w.stack, m), ..w };
        let next = WorkspaceView { stack: rotated(shown.stack), ..w };
        workspace::lemma_active_replaced(s.workspaces, id, shown);
        assert(t.workspaces.active(id) == Some(shown));
        let turned = State { workspaces: t.workspaces.with_active(id, next), ..t }.dirtied();
        focus::law_the_focus_goes_where_it_is_sent(turned, shown.stack[0]);
        workspace::lemma_shown_elsewhere(s.workspaces, id, shown, next, id);
        assert forall|k: ClientObjectId| #[trigger]
            workspace::times_in(next.stack, k) == workspace::times_in(shown.stack, k) by {
            lemma_turning_keeps_windows(shown.stack, k);
        }
        workspace::lemma_sound_turned(t.workspaces, id, next);
        workspace::lemma_active_replaced(t.workspaces, id, next);
        let u = t.focus_cycled();
        assert(u.workspaces == turned.workspaces);
        assert(next.stack.last() == shown.stack[0]);
        assert(u.workspaces.visible_stack(id).contains(shown.stack[0]));
        workspace::law_a_showing_window_is_on_its_output(u.workspaces, id, shown.stack[0]);
    }
}

/// Whether either Alt is held, for the compositor's own drag bindings.
pub fn alt_held(state: &CompositorState) -> (r: bool)
    requires
        state.wf(),
    ensures
        r == has_alt(state@.pressed_keys),
{
    state.pressed_keys.contains(KEY_LEFTALT) || state.pressed_keys.contains(KEY_RIGHTALT)
}

/// Match a key press against the compositor's bindings.
///
/// Alt is matched on the physical keys rather than the xkb modifier mask.
/// Everything else in the input path already speaks evdev keycodes, and the
/// compositor builds its keymap from the default names, so there is no
/// remapping to respect yet.
pub fn match_binding(evdev_key: u32, pressed_keys: &KeySet<u32>) -> (r: Option<Binding>)
    requires
        pressed_keys.wf(),
    ensures
        r == bound(evdev_key, pressed_keys@),
{
    if !pressed_keys.contains(KEY_LEFTALT) && !pressed_keys.contains(KEY_RIGHTALT) {
        return None;
    }
    if evdev_key == KEY_F4 {
        Some(Binding::CloseWindow)
    } else if evdev_key == KEY_TAB {
        Some(Binding::CycleFocus)
    } else {
        None
    }
}

/// Ask the focused toplevel to close.
///
/// Only a request - the client decides whether to honour it, so the window is
/// torn down later through the normal `xdg_toplevel.destroy` path, not here.
pub fn close_focused_window(state: &mut CompositorState)
    requires
        old(state).wf(),
    ensures
        final(state).wf(),
        final(state)@ == old(state)@.close_asked(),
{
    if let Some(surface) = state.focused_surface {
        if let Some((_, toplevel_id)) = state.xdg_ids_for_surface(surface) {
            xdg_toplevel::send_close(state, surface.0, toplevel_id);
        }
    }
}

/// Turning a stack round moves no window in or out of it.
proof fn lemma_turning_keeps_windows(stack: Seq<ClientObjectId>, key: ClientObjectId)
    requires
        stack.len() > 0,
    ensures
        workspace::times_in(rotated(stack), key) == workspace::times_in(stack, key),
{
    let bottom = seq![stack[0]];
    let rest = stack.remove(0);
    assert(stack =~= bottom + rest);
    assert(rotated(stack) =~= rest + bottom);
    workspace::lemma_times_add(bottom, rest, key);
    workspace::lemma_times_add(rest, bottom, key);
}

/// Move focus to the next toplevel, raising it to the top of the stack.
///
/// Cycling stays within one workspace - the one holding the focused window,
/// or failing that the one showing on the output under the pointer. The other
/// workspaces are not on screen, so tabbing into them would move focus to a
/// window the user cannot see.
///
/// A workspace stack is ordered bottom to top, so taking the bottom entry and
/// pushing it on top rotates through every window on repeated presses rather
/// than toggling between the most recent two.
pub fn cycle_focus(state: &mut CompositorState)
    requires
        old(state).wf(),
    ensures
        final(state).wf(),
        final(state)@ == old(state)@.focus_cycled(),
{
    let focused_on = match state.focused_surface {
        Some(surface) => state.surface_output(surface),
        None => None,
    };
    let chosen = match focused_on {
        Some(id) => Some(id),
        None => state.output_for_new_window(),
    };
    let output_id = match chosen {
        Some(id) => id,
        None => {
            return ;
        },
    };
    let ghost before = state@.workspaces;
    proof {
        assert forall|stack: Seq<ClientObjectId>, k: ClientObjectId| stack.len() > 0 implies #[trigger]
            workspace::times_in(rotated(stack), k) == workspace::times_in(stack, k) by {
            lemma_turning_keeps_windows(stack, k);
        }
    }
    let next = match state.workspaces.active_mut(output_id) {
        Some(workspace) => {
            let ghost was = workspace@;
            if workspace.surface_stack.len() < 2 {
                proof {
                    let i = before.entry(output_id).unwrap();
                    assert(before.outputs[i].with_shown(was) =~= before.outputs[i]);
                    assert(before.with_active(output_id, was) =~= before);
                }
                return ;
            }
            proof {
                workspace::lemma_sound_turned(
                    before,
                    output_id,
                    WorkspaceView { stack: rotated(was.stack), ..was },
                );
            }
            let next = workspace.surface_stack.remove(0);
            workspace.surface_stack.push(next);
            next
        },
        None => {
            return ;
        },
    };
    state.dirty = true;
    switch_focus(state, next);
}

/// Tell whoever has the focus of a key.
fn deliver_key(
    state: &mut CompositorState,
    time_ms: u32,
    key: u32,
    pressed: bool,
    modifiers: Modifiers,
)
    requires
        old(state).wf(),
    ensures
        final(state).wf(),
        final(state)@ == old(state)@.key_delivered(time_ms, key, pressed, modifiers),
{
    let surface = match state.focused_surface {
        Some(surface) => surface,
        None => {
            return ;
        },
    };
    let keyboards = wl_keyboard::keyboards_of(state, surface.0);
    let ghost start = state@;
    let ghost f = typing(surface.0, time_ms, key, pressed, modifiers);
    let mut i: usize = 0;
    proof {
        state::lemma_each_ends(start, keyboards@, f);
    }
    while i < keyboards.len()
        invariant
            state.wf(),
            i <= keyboards@.len(),
            f == typing(surface.0, time_ms, key, pressed, modifiers),
            state@ == state::each(start, keyboards@.take(i as int), f),
        decreases keyboards@.len() - i,
    {
        proof {
            state::lemma_each_step(start, keyboards@, f, i as int);
        }
        wl_keyboard::send_key(state, surface.0, keyboards[i], time_ms, key, pressed);
        wl_keyboard::send_modifiers(
            state,
            surface.0,
            keyboards[i],
            modifiers.depressed,
            modifiers.latched,
            modifiers.locked,
            modifiers.group,
        );
        i = i + 1;
    }
    proof {
        state::lemma_each_ends(start, keyboards@, f);
    }
}

/// Act on a key that is now held.
///
/// Compositor bindings are handled here and never reach the client, so a bound
/// combination cannot also trigger an application shortcut.
fn handle_press(state: &mut CompositorState, time_ms: u32, key: u32, modifiers: Modifiers)
    requires
        old(state).wf(),
    ensures
        final(state).wf(),
        final(state)@ == old(state)@.press_handled(time_ms, key, modifiers),
{
    // Escape abandons a drag. Without it the only way out of one is to drop it
    // somewhere, and the user may have no somewhere they are willing to drop it
    // on.
    if key == KEY_ESC && state.drag.is_some() {
        state.cancel_drag();
        state.consumed_keys.insert(key);
        return ;
    }
    match match_binding(key, &state.pressed_keys) {
        Some(Binding::CloseWindow) => {
            state.consumed_keys.insert(key);
            close_focused_window(state);
        },
        Some(Binding::CycleFocus) => {
            state.consumed_keys.insert(key);
            cycle_focus(state);
        },
        None => deliver_key(state, time_ms, key, true, modifiers),
    }
}

/// Act on a key that is no longer held. Where its press was the compositor's,
/// so is its release.
fn handle_release(state: &mut CompositorState, time_ms: u32, key: u32, modifiers: Modifiers)
    requires
        old(state).wf(),
    ensures
        final(state).wf(),
        final(state)@ == old(state)@.release_handled(time_ms, key, modifiers),
{
    if state.consumed_keys.contains(key) {
        state.consumed_keys.remove(key);
    } else {
        deliver_key(state, time_ms, key, false, modifiers);
    }
}

/// A key has been pressed or let go of.
pub fn key_input(
    state: &mut CompositorState,
    time_ms: u32,
    keycode: u32,
    pressed: bool,
    modifiers: Modifiers,
)
    requires
        old(state).wf(),
    ensures
        final(state).wf(),
        final(state)@ == old(state)@.key_handled(time_ms, keycode, pressed, modifiers),
{
    let key: u32 = if keycode >= KEYCODE_OFFSET { keycode - KEYCODE_OFFSET } else { 0 };
    if pressed {
        state.pressed_keys.insert(key);
        handle_press(state, time_ms, key, modifiers);
    } else {
        state.pressed_keys.remove(key);
        handle_release(state, time_ms, key, modifiers);
    }
}

} // verus!

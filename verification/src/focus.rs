//! Keyboard focus: who has it, and how it moves.

use crate::departure;
use crate::protocol::{wl_data_device, wl_keyboard, xdg_toplevel};
use crate::state::{self, CompositorState, State};
use crate::workspace::{self, ClientObjectId};
use vstd::prelude::*;

verus! {

/// Tell one keyboard that it left a surface.
pub open spec fn unfocusing(surface: ClientObjectId) -> spec_fn(State, u32) -> State {
    |s: State, keyboard: u32| s.keyboard_left(surface.0, keyboard, surface.1)
}

/// Tell one keyboard that it is on a surface.
pub open spec fn focusing(surface: ClientObjectId) -> spec_fn(State, u32) -> State {
    |s: State, keyboard: u32| s.keyboard_entered(surface.0, keyboard, surface.1)
}

impl State {
    /// The state once a window is above the others on its workspace, with what
    /// belongs to it.
    pub open spec fn surface_raised(self, surface: ClientObjectId) -> Self {
        match self.toplevel_for_surface(surface) {
            Some(toplevel) => self.raised_with_children(toplevel),
            None => State { workspaces: self.workspaces.raised(surface), ..self },
        }
    }

    /// The state once a client's keyboards have been told they left a surface.
    pub open spec fn keyboards_left(self, surface: ClientObjectId) -> Self {
        state::each(self, self.keyboards_of(surface.0), unfocusing(surface))
    }

    /// The state once a client's keyboards have been told they are on a surface.
    pub open spec fn keyboards_entered(self, surface: ClientObjectId) -> Self {
        state::each(self, self.keyboards_of(surface.0), focusing(surface))
    }

    /// The state once a surface has the focus: the one that had it is told
    /// first, and the clipboard follows it.
    pub open spec fn focus_switched(self, to: ClientObjectId) -> Self {
        if self.focused_surface == Some(to) {
            self
        } else {
            let s = match self.focused_surface {
                Some(from) => self.keyboards_left(from).activation_told(from, false),
                None => self,
            };
            State { focused_surface: Some(to), ..s }.keyboards_entered(to).activation_told(
                to,
                true,
            ).selection_to_client(to.0)
        }
    }
}

/// Tell a client's keyboards that they left a surface.
pub fn send_keyboards_left(state: &mut CompositorState, surface: ClientObjectId)
    requires
        old(state).wf(),
    ensures
        final(state).wf(),
        final(state)@ == old(state)@.keyboards_left(surface),
{
    let keyboards = wl_keyboard::keyboards_of(state, surface.0);
    let ghost start = state@;
    let mut i: usize = 0;
    proof {
        state::lemma_each_ends(start, keyboards@, unfocusing(surface));
    }
    while i < keyboards.len()
        invariant
            state.wf(),
            i <= keyboards@.len(),
            state@ == state::each(start, keyboards@.take(i as int), unfocusing(surface)),
        decreases keyboards@.len() - i,
    {
        proof {
            state::lemma_each_step(start, keyboards@, unfocusing(surface), i as int);
        }
        wl_keyboard::send_leave(state, surface.0, keyboards[i], surface.1);
        i = i + 1;
    }
}

/// Tell a client's keyboards that they are on a surface.
pub fn send_keyboards_entered(state: &mut CompositorState, surface: ClientObjectId)
    requires
        old(state).wf(),
    ensures
        final(state).wf(),
        final(state)@ == old(state)@.keyboards_entered(surface),
{
    let keyboards = wl_keyboard::keyboards_of(state, surface.0);
    let ghost start = state@;
    let mut i: usize = 0;
    proof {
        state::lemma_each_ends(start, keyboards@, focusing(surface));
    }
    while i < keyboards.len()
        invariant
            state.wf(),
            i <= keyboards@.len(),
            state@ == state::each(start, keyboards@.take(i as int), focusing(surface)),
        decreases keyboards@.len() - i,
    {
        proof {
            state::lemma_each_step(start, keyboards@, focusing(surface), i as int);
        }
        wl_keyboard::send_enter(state, surface.0, keyboards[i], surface.1);
        i = i + 1;
    }
}

/// Switch keyboard focus to a new surface, sending leave/enter and
/// activated/deactivated events.
///
/// The new surface is told it is activated too: a window that does not know it
/// has the focus draws itself as though it did not. The clipboard goes with the
/// focus, so that what was copied elsewhere can be pasted here.
pub fn switch_focus(state: &mut CompositorState, new_surface: ClientObjectId)
    requires
        old(state).wf(),
    ensures
        final(state).wf(),
        final(state)@ == old(state)@.focus_switched(new_surface),
{
    if let Some(old_surface) = state.focused_surface {
        if old_surface.0 == new_surface.0 && old_surface.1 == new_surface.1 {
            return ;
        }
        send_keyboards_left(state, old_surface);
        xdg_toplevel::send_activated(state, old_surface.0, old_surface.1, false);
    }
    state.focused_surface = Some(new_surface);
    send_keyboards_entered(state, new_surface);
    xdg_toplevel::send_activated(state, new_surface.0, new_surface.1, true);
    wl_data_device::send_selection_to_client(state, new_surface.0);
}

/// Raise the window under a click, bringing any dialogs of its own with it.
///
/// Goes through the toplevel rather than straight to the workspace stack so
/// that `set_parent` is honoured - a dialog must not be buried by a click on
/// the window it belongs to.
pub fn raise_window(state: &mut CompositorState, surface: ClientObjectId)
    requires
        old(state).wf(),
    ensures
        final(state).wf(),
        final(state)@ == old(state)@.surface_raised(surface),
{
    match state.toplevel_for_surface(surface) {
        Some(toplevel) => state.raise_with_children(toplevel),
        None => {
            proof {
                workspace::lemma_sound_raised(state@.workspaces, surface);
            }
            state.workspaces.raise(surface);
        },
    }
}

impl State {
    /// A state differs from another at most in what clients have been sent and
    /// offered, in the serials that took, and in who has the focus.
    pub open spec fn told_since(self, before: State) -> bool {
        self == State {
            clients: self.clients,
            data_offers: self.data_offers,
            next_serial: self.next_serial,
            input_serials: self.input_serials,
            focused_surface: self.focused_surface,
            ..before
        }
    }
}

/// Telling a window whether it has the focus changes nothing but what its client
/// has been told.
proof fn lemma_activation_told(s: State, surface: ClientObjectId, activated: bool)
    ensures
        s.activation_told(surface, activated).told_since(s),
        s.activation_told(surface, activated).focused_surface == s.focused_surface,
{
}

/// Telling keyboards that they left changes nothing but what their client has
/// been told.
proof fn lemma_keyboards_left(s: State, surface: ClientObjectId)
    ensures
        s.keyboards_left(surface).told_since(s),
{
    let inv = |a: State| a.told_since(s);
    assert forall|a: State, keyboard: u32| inv(a) implies inv(
        #[trigger] unfocusing(surface)(a, keyboard),
    ) by {}
    state::lemma_each_keeps(s, s.keyboards_of(surface.0), unfocusing(surface), inv);
}

/// Telling keyboards where they are changes nothing but what their client has
/// been told.
proof fn lemma_keyboards_entered(s: State, surface: ClientObjectId)
    ensures
        s.keyboards_entered(surface).told_since(s),
        s.keyboards_entered(surface).focused_surface == s.focused_surface,
{
    let inv = |a: State| a.told_since(s) && a.focused_surface == s.focused_surface;
    assert forall|a: State, keyboard: u32| inv(a) implies inv(
        #[trigger] focusing(surface)(a, keyboard),
    ) by {}
    state::lemma_each_keeps(s, s.keyboards_of(surface.0), focusing(surface), inv);
}

/// One telling after another is a telling.
proof fn lemma_told_on(a: State, b: State, c: State)
    requires
        b.told_since(a),
        c.told_since(b),
    ensures
        c.told_since(a),
{
}

/// Losing the focus changes nothing but what clients have been told.
proof fn lemma_departed(s: State, from: ClientObjectId)
    ensures
        s.keyboards_left(from).activation_told(from, false).told_since(s),
{
    let left = s.keyboards_left(from);
    lemma_keyboards_left(s, from);
    lemma_activation_told(left, from, false);
    lemma_told_on(s, left, left.activation_told(from, false));
}

/// Getting the focus changes nothing but what clients have been told.
proof fn lemma_arrived(s: State, to: ClientObjectId)
    ensures
        s.keyboards_entered(to).activation_told(to, true).selection_to_client(to.0).told_since(s),
        s.keyboards_entered(to).activation_told(to, true).selection_to_client(to.0).focused_surface
            == s.focused_surface,
{
    let entered = s.keyboards_entered(to);
    let active = entered.activation_told(to, true);
    lemma_keyboards_entered(s, to);
    lemma_activation_told(entered, to, true);
    lemma_told_on(s, entered, active);
    lemma_clipboard_told(active, to.0);
    lemma_told_on(s, active, active.selection_to_client(to.0));
}

/// Telling a client what the clipboard holds is a telling.
proof fn lemma_clipboard_told(s: State, client_id: u32)
    ensures
        s.selection_to_client(client_id).told_since(s),
        s.selection_to_client(client_id).focused_surface == s.focused_surface,
{
    departure::lemma_selection_told(s, client_id);
}

/// The focus goes where it is sent, and moving it changes nothing but what
/// clients have been told: no window moves, and no key is held or let go of.
pub proof fn law_the_focus_goes_where_it_is_sent(s: State, to: ClientObjectId)
    ensures
        s.focus_switched(to).focused_surface == Some(to),
        s.focus_switched(to).told_since(s),
{
    if s.focused_surface != Some(to) {
        let left = match s.focused_surface {
            Some(from) => {
                lemma_departed(s, from);
                s.keyboards_left(from).activation_told(from, false)
            },
            None => s,
        };
        let here = State { focused_surface: Some(to), ..left };
        lemma_arrived(here, to);
        lemma_told_on(s, left, here);
        lemma_told_on(s, here, s.focus_switched(to));
    }
}

} // verus!

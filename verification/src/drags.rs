//! Dragging something from one client to another.

use crate::hits::{hit_test, HitResult};
use crate::objects::{DragView, OfferKind};
use crate::protocol::{wl_data_device, wl_data_offer, wl_data_source};
use crate::state::{self, CompositorState, State};
use crate::transfer;
use crate::wire::{self, fixed_local, fixed_to_i32};
use crate::workspace::{copy_keys, ClientObjectId};
use vstd::prelude::*;

verus! {

/// Tell one device of a client where the drag is.
pub open spec fn drag_moving(client_id: u32, time_ms: u32, x: i32, y: i32) -> spec_fn(
    State,
    u32,
) -> State {
    |s: State, device: u32| s.device_moved(client_id, device, time_ms, x, y)
}

/// Tell one device of a client of a drop.
pub open spec fn dropping(client_id: u32) -> spec_fn(State, u32) -> State {
    |s: State, device: u32| s.device_dropped(client_id, device)
}

/// Have one offer be of something that was dropped.
pub open spec fn marking_dropped() -> spec_fn(State, ClientObjectId) -> State {
    |s: State, offer: ClientObjectId| s.offer_dropped(offer)
}

/// Take back one offer.
pub open spec fn invalidating() -> spec_fn(State, ClientObjectId) -> State {
    |s: State, offer: ClientObjectId| s.offer_invalidated(offer)
}

/// Introduce a drag on one device: what it offers, what its source allows, and
/// then that it is over a surface. The offers made are gathered.
pub open spec fn introducing(
    source: Option<ClientObjectId>,
    actions: u32,
    surface: ClientObjectId,
    x: i32,
    y: i32,
) -> spec_fn((State, Seq<ClientObjectId>), u32) -> (State, Seq<ClientObjectId>) {
    |a: (State, Seq<ClientObjectId>), device: u32|
        {
            let (s, offers) = a;
            let offer = match source {
                Some(_) => s.next_offer(surface.0),
                None => None,
            };
            match offer {
                Some(o) => (
                    s.offer_made(
                        surface.0,
                        device,
                        source.unwrap(),
                        OfferKind::Drag,
                    ).source_actions_told(o, actions).device_entered(
                        surface.0,
                        device,
                        surface.1,
                        x,
                        y,
                        Some(o.1),
                    ),
                    offers.push(o),
                ),
                None => (
                    s.device_entered(surface.0, device, surface.1, x, y, None),
                    offers,
                ),
            }
        }
}

impl State {
    /// The state once a drag is over a surface, and its client has been told.
    pub open spec fn drag_entered(self, surface: ClientObjectId, x: i32, y: i32) -> Self {
        match self.drag {
            Some(drag) => {
                let actions = match drag.source {
                    Some(source) => self.actions_of(source),
                    None => 0,
                };
                let (s, offers) = state::each(
                    (self, Seq::empty()),
                    self.devices_of(surface.0),
                    introducing(drag.source, actions, surface, x, y),
                );
                state::each(
                    s.drag_focused(surface, offers),
                    offers,
                    transfer::resolving(),
                )
            },
            None => self,
        }
    }

    /// The state with the drag over a surface, under some offers.
    pub open spec fn drag_focused(self, surface: ClientObjectId, offers: Seq<ClientObjectId>) -> Self {
        match self.drag {
            Some(drag) => State {
                drag: Some(
                    DragView { focus: Some(surface), focus_offers: offers, ..drag },
                ),
                ..self
            },
            None => self,
        }
    }

    /// What a drag is over. One with no source has nothing to hand to anyone
    /// but the client that started it.
    pub open spec fn drag_hit(self) -> Option<HitResult> {
        match self.hit_here() {
            Some(h) => if self.drag matches Some(d) && (d.source is Some || h.surface.0
                == d.origin_client) {
                Some(h)
            } else {
                None
            },
            None => None,
        }
    }

    /// The state once the drag has followed the pointer.
    pub open spec fn drag_driven(self, time_ms: u32) -> Self {
        match self.drag {
            Some(drag) => {
                let s = self.dirtied();
                match self.drag_hit() {
                    Some(h) => {
                        let x = wire::local(self.cursor_x, h.surface_x);
                        let y = wire::local(self.cursor_y, h.surface_y);
                        if drag.focus == Some(h.surface) {
                            state::each(
                                s,
                                s.devices_of(h.surface.0),
                                drag_moving(h.surface.0, time_ms, x, y),
                            )
                        } else {
                            s.drag_unfocused().drag_entered(h.surface, x, y)
                        }
                    },
                    None => s.drag_unfocused(),
                }
            },
            None => self,
        }
    }

    /// The state once a client's devices have been told of a drop.
    pub open spec fn drop_told(self, client_id: u32) -> Self {
        state::each(self, self.devices_of(client_id), dropping(client_id))
    }

    /// The state once a source, where there is one, has been told that its drag
    /// came to nothing.
    pub open spec fn cancel_told(self, source: Option<ClientObjectId>) -> Self {
        match source {
            Some(source) => self.source_cancelled(source),
            None => self,
        }
    }

    /// The state once what was being dragged has been let go of.
    pub open spec fn drag_finished(self) -> Self {
        match self.drag {
            Some(drag) => {
                let s = State { drag: None, ..self }.dirtied();
                match (drag.focus, drag.source) {
                    (None, source) => s.cancel_told(source),
                    (Some(focus), None) => s.drop_told(focus.0),
                    (Some(focus), Some(source)) => if self.target_accepted() {
                        state::each(
                            s.drop_told(focus.0),
                            drag.focus_offers,
                            marking_dropped(),
                        ).source_dropped(source)
                    } else {
                        state::each(
                            state::each(
                                s,
                                s.devices_of(focus.0),
                                transfer::device_leaving(focus.0),
                            ),
                            drag.focus_offers,
                            invalidating(),
                        ).source_cancelled(source)
                    },
                }
            },
            None => self,
        }
    }
}

/// Deliver a drag to whatever is under the pointer. Returns false if there is
/// no drag, in which case the pointer belongs to the ordinary path.
///
/// The surface under the pointer hears about this through its *data device*,
/// not its pointer: no `wl_pointer` event reaches anyone for the duration of a
/// drag, and the target learns where the pointer is from
/// `wl_data_device.motion`.
pub fn update_drag(state: &mut CompositorState, time_ms: u32) -> (r: bool)
    requires
        old(state).wf(),
    ensures
        final(state).wf(),
        final(state)@ == old(state)@.drag_driven(time_ms),
        r == old(state)@.drag is Some,
{
    let (sourced, origin_client, focus): (bool, u32, Option<ClientObjectId>) = match &state.drag {
        Some(drag) => (drag.source.is_some(), drag.origin_client, drag.focus),
        None => {
            return false;
        },
    };
    // A drag with no source is one client dragging within itself. It has
    // nothing to hand anyone else, so nobody else is a target - filtering here
    // rather than at delivery keeps the enter and leave bookkeeping honest,
    // since the drag never considers itself to have entered a surface it may
    // not talk to.
    let (px, py): (i32, i32) = (fixed_to_i32(state.cursor_x), fixed_to_i32(state.cursor_y));
    let hit = match hit_test(state, px, py) {
        Some(h) => if sourced || h.surface.0 == origin_client {
            Some(h)
        } else {
            None
        },
        None => None,
    };
    assert(hit == state@.drag_hit());
    state.dirty = true;
    match hit {
        Some(h) => {
            let x: i32 = fixed_local(state.cursor_x, h.surface_x);
            let y: i32 = fixed_local(state.cursor_y, h.surface_y);
            let same = match focus {
                Some(f) => f.0 == h.surface.0 && f.1 == h.surface.1,
                None => false,
            };
            if same {
                send_drag_motion(state, h.surface.0, time_ms, x, y);
            } else {
                state.end_drag_focus();
                enter_drag_surface(state, h.surface, x, y);
            }
        },
        None => state.end_drag_focus(),
    }
    true
}

/// Tell a client's devices where the drag is.
fn send_drag_motion(state: &mut CompositorState, client_id: u32, time_ms: u32, x: i32, y: i32)
    requires
        old(state).wf(),
    ensures
        final(state).wf(),
        final(state)@ == state::each(
            old(state)@,
            old(state)@.devices_of(client_id),
            drag_moving(client_id, time_ms, x, y),
        ),
{
    let devices = wl_data_device::devices_of(state, client_id);
    let ghost start = state@;
    let ghost f = drag_moving(client_id, time_ms, x, y);
    let mut i: usize = 0;
    proof {
        state::lemma_each_ends(start, devices@, f);
    }
    while i < devices.len()
        invariant
            state.wf(),
            i <= devices@.len(),
            f == drag_moving(client_id, time_ms, x, y),
            state@ == state::each(start, devices@.take(i as int), f),
        decreases devices@.len() - i,
    {
        proof {
            state::lemma_each_step(start, devices@, f, i as int);
        }
        wl_data_device::send_motion(state, client_id, devices[i], time_ms, x, y);
        i = i + 1;
    }
    proof {
        state::lemma_each_ends(start, devices@, f);
    }
}

/// Introduce a drag to the client whose surface it has just moved over.
///
/// One offer per data device, because `enter` is a per-device event and an
/// offer belongs to the device it arrived on. The order within a device is
/// forced: the client has to know the object exists and what mime types are
/// behind it before it is told a drag is over it and asked to decide.
pub fn enter_drag_surface(state: &mut CompositorState, surface: ClientObjectId, x: i32, y: i32)
    requires
        old(state).wf(),
    ensures
        final(state).wf(),
        final(state)@ == old(state)@.drag_entered(surface, x, y),
{
    let source = match &state.drag {
        Some(drag) => drag.source,
        None => {
            return ;
        },
    };
    let actions: u32 = match source {
        Some(key) => match state.data_sources.get(key) {
            Some(s) => s.actions,
            None => 0,
        },
        None => 0,
    };
    let offers = introduce_drag(state, source, actions, surface, x, y);
    if let Some(mut drag) = state.drag.take() {
        drag.focus = Some(surface);
        drag.focus_offers = copy_keys(&offers);
        state.drag = Some(drag);
    }
    // After the enter, so the client has already been told the offer exists
    // before it hears what action it would settle on.
    let ghost start = state@;
    let mut i: usize = 0;
    proof {
        state::lemma_each_ends(start, offers@, transfer::resolving());
    }
    while i < offers.len()
        invariant
            state.wf(),
            i <= offers@.len(),
            state@ == state::each(start, offers@.take(i as int), transfer::resolving()),
        decreases offers@.len() - i,
    {
        proof {
            state::lemma_each_step(start, offers@, transfer::resolving(), i as int);
        }
        state.resolve_offer_action(offers[i]);
        i = i + 1;
    }
    proof {
        state::lemma_each_ends(start, offers@, transfer::resolving());
    }
}

/// Introduce a drag on every device of the client it has moved over. Gives the
/// offers that were made.
fn introduce_drag(
    state: &mut CompositorState,
    source: Option<ClientObjectId>,
    actions: u32,
    surface: ClientObjectId,
    x: i32,
    y: i32,
) -> (offers: Vec<ClientObjectId>)
    requires
        old(state).wf(),
    ensures
        final(state).wf(),
        (final(state)@, offers@) == state::each(
            (old(state)@, Seq::empty()),
            old(state)@.devices_of(surface.0),
            introducing(source, actions, surface, x, y),
        ),
{
    let devices = wl_data_device::devices_of(state, surface.0);
    let mut offers: Vec<ClientObjectId> = Vec::new();
    let ghost start = (state@, Seq::<ClientObjectId>::empty());
    let ghost f = introducing(source, actions, surface, x, y);
    let mut i: usize = 0;
    proof {
        state::lemma_each_ends(start, devices@, f);
    }
    while i < devices.len()
        invariant
            state.wf(),
            i <= devices@.len(),
            f == introducing(source, actions, surface, x, y),
            (state@, offers@) == state::each(start, devices@.take(i as int), f),
        decreases devices@.len() - i,
    {
        proof {
            state::lemma_each_step(start, devices@, f, i as int);
        }
        let device_id: u32 = devices[i];
        let offer = match source {
            Some(source) => wl_data_device::create_offer(
                state,
                surface.0,
                device_id,
                source,
                OfferKind::Drag,
            ),
            None => None,
        };
        match offer {
            Some(offer) => {
                // Before the enter, so the client has the whole picture at the
                // moment it decides what it will accept.
                wl_data_offer::send_source_actions(state, offer, actions);
                wl_data_device::send_enter(
                    state,
                    surface.0,
                    device_id,
                    surface.1,
                    x,
                    y,
                    Some(offer.1),
                );
                offers.push(offer);
            },
            None => wl_data_device::send_enter(
                state,
                surface.0,
                device_id,
                surface.1,
                x,
                y,
                None,
            ),
        }
        i = i + 1;
    }
    proof {
        state::lemma_each_ends(start, devices@, f);
    }
    offers
}

/// Tell a client's devices that the user let go over it.
fn send_drops(state: &mut CompositorState, client_id: u32)
    requires
        old(state).wf(),
    ensures
        final(state).wf(),
        final(state)@ == old(state)@.drop_told(client_id),
{
    let devices = wl_data_device::devices_of(state, client_id);
    let ghost start = state@;
    let mut i: usize = 0;
    proof {
        state::lemma_each_ends(start, devices@, dropping(client_id));
    }
    while i < devices.len()
        invariant
            state.wf(),
            i <= devices@.len(),
            state@ == state::each(start, devices@.take(i as int), dropping(client_id)),
        decreases devices@.len() - i,
    {
        proof {
            state::lemma_each_step(start, devices@, dropping(client_id), i as int);
        }
        wl_data_device::send_drop(state, client_id, devices[i]);
        i = i + 1;
    }
    proof {
        state::lemma_each_ends(start, devices@, dropping(client_id));
    }
}

/// Tell a client's devices that the drag is not over it any more.
fn send_leaves(state: &mut CompositorState, client_id: u32)
    requires
        old(state).wf(),
    ensures
        final(state).wf(),
        final(state)@ == state::each(
            old(state)@,
            old(state)@.devices_of(client_id),
            transfer::device_leaving(client_id),
        ),
{
    let devices = wl_data_device::devices_of(state, client_id);
    let ghost start = state@;
    let ghost f = transfer::device_leaving(client_id);
    let mut i: usize = 0;
    proof {
        state::lemma_each_ends(start, devices@, f);
    }
    while i < devices.len()
        invariant
            state.wf(),
            i <= devices@.len(),
            f == transfer::device_leaving(client_id),
            state@ == state::each(start, devices@.take(i as int), f),
        decreases devices@.len() - i,
    {
        proof {
            state::lemma_each_step(start, devices@, f, i as int);
        }
        wl_data_device::send_leave(state, client_id, devices[i]);
        i = i + 1;
    }
    proof {
        state::lemma_each_ends(start, devices@, f);
    }
}

/// Settle what becomes of the offers of a drag that was let go of: either they
/// are of something dropped, or they are void.
fn settle_offers(state: &mut CompositorState, offers: &Vec<ClientObjectId>, dropped: bool)
    requires
        old(state).wf(),
    ensures
        final(state).wf(),
        final(state)@ == state::each(
            old(state)@,
            offers@,
            if dropped {
                marking_dropped()
            } else {
                invalidating()
            },
        ),
{
    let ghost start = state@;
    let ghost f = if dropped {
        marking_dropped()
    } else {
        invalidating()
    };
    let mut i: usize = 0;
    proof {
        state::lemma_each_ends(start, offers@, f);
    }
    while i < offers.len()
        invariant
            state.wf(),
            i <= offers@.len(),
            f == if dropped {
                marking_dropped()
            } else {
                invalidating()
            },
            state@ == state::each(start, offers@.take(i as int), f),
        decreases offers@.len() - i,
    {
        proof {
            state::lemma_each_step(start, offers@, f, i as int);
        }
        if dropped {
            state.mark_offer_dropped(offers[i]);
        } else {
            state.invalidate_offer(offers[i]);
        }
        i = i + 1;
    }
    proof {
        state::lemma_each_ends(start, offers@, f);
    }
}

/// Resolve a drag when the button comes up.
///
/// A drop frees the pointer immediately and does *not* end the offer. The
/// target has still to read the data and say when it is done, and everything
/// that needs is reachable from the offer rather than from the drag - so the
/// drag is what ends here and the offer is what survives. Keeping the drag
/// alive to mean "dropped but not finished" would put a second condition on
/// every check of whether the pointer is spoken for, and the one place that
/// forgot it would swallow the pointer for good.
pub fn finish_drag(state: &mut CompositorState)
    requires
        old(state).wf(),
    ensures
        final(state).wf(),
        final(state)@ == old(state)@.drag_finished(),
{
    // Read before the drag is taken: this asks what the target accepted
    // through it.
    let accepted = state.drag_target_accepted();
    let drag = match state.drag.take() {
        Some(drag) => drag,
        None => {
            return ;
        },
    };
    state.dirty = true;
    let focus = match drag.focus {
        Some(focus) => focus,
        None => {
            // Let go over nothing. There is nobody to drop on, so the source is
            // told the drag came to nothing.
            if let Some(source) = drag.source {
                wl_data_source::send_cancelled(state, source);
            }
            return ;
        },
    };
    let source = match drag.source {
        Some(source) => source,
        None => {
            // A drag with no source went only to the client that started it,
            // which handles the content itself: there is no source to tell and
            // no offer to keep alive.
            send_drops(state, focus.0);
            return ;
        },
    };
    if !accepted {
        send_leaves(state, focus.0);
        settle_offers(state, &drag.focus_offers, false);
        wl_data_source::send_cancelled(state, source);
        return ;
    }
    send_drops(state, focus.0);
    settle_offers(state, &drag.focus_offers, true);
    wl_data_source::send_dnd_drop_performed(state, source);
}

/// A drag is over once it is let go of, whatever comes of it.
pub proof fn law_a_drag_ends_when_it_is_let_go_of(s: State)
    ensures
        s.drag_finished().drag is None,
{
    if s.drag is Some {
        let drag = s.drag.unwrap();
        let free = State { drag: None, ..s }.dirtied();
        let inv = |a: State| a.drag is None;
        match drag.focus {
            Some(focus) => {
                let (client, offers) = (focus.0, drag.focus_offers);
                assert forall|a: State, device: u32| inv(a) implies inv(
                    #[trigger] dropping(client)(a, device),
                ) by {}
                assert forall|a: State, device: u32| inv(a) implies inv(
                    #[trigger] transfer::device_leaving(client)(a, device),
                ) by {}
                assert forall|a: State, offer: ClientObjectId| inv(a) implies inv(
                    #[trigger] marking_dropped()(a, offer),
                ) by {}
                assert forall|a: State, offer: ClientObjectId| inv(a) implies inv(
                    #[trigger] invalidating()(a, offer),
                ) by {}
                state::lemma_each_keeps(free, free.devices_of(client), dropping(client), inv);
                state::lemma_each_keeps(free.drop_told(client), offers, marking_dropped(), inv);
                let leaving = transfer::device_leaving(client);
                state::lemma_each_keeps(free, free.devices_of(client), leaving, inv);
                state::lemma_each_keeps(
                    state::each(free, free.devices_of(client), leaving),
                    offers,
                    invalidating(),
                    inv,
                );
            },
            None => {},
        }
    }
}

} // verus!

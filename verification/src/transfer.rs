//! The clipboard and drag and drop: what moves between clients, who is told,
//! and what becomes of a drag.

use crate::objects::{DataOfferView, Drag, DragView, OfferKind};
use crate::protocol::wl_data_device_manager::{
    DND_ACTION_ASK, DND_ACTION_COPY, DND_ACTION_MOVE, DND_ACTION_NONE,
};
use crate::protocol::{wl_data_device, wl_data_offer, wl_data_source};
use crate::state::{self, CompositorState, State};
use crate::table;
use crate::wire;
use crate::workspace::{copy_keys, ClientObjectId};
use vstd::prelude::*;

verus! {

/// What the two ends of a drag settle on: what the receiver would rather, if
/// both allow it, and otherwise the gentlest thing that both do.
pub open spec fn settled_action(allowed: u32, accepted: u32, preferred: u32) -> u32 {
    let common = allowed & accepted;
    if common & preferred != 0 {
        preferred
    } else if common & DND_ACTION_COPY != 0 {
        DND_ACTION_COPY
    } else if common & DND_ACTION_MOVE != 0 {
        DND_ACTION_MOVE
    } else if common & DND_ACTION_ASK != 0 {
        DND_ACTION_ASK
    } else {
        DND_ACTION_NONE
    }
}

/// Settle what the two ends of a drag do.
pub fn settle_action(allowed: u32, accepted: u32, preferred: u32) -> (r: u32)
    ensures
        r == settled_action(allowed, accepted, preferred),
{
    let common: u32 = allowed & accepted;
    if common & preferred != 0 {
        preferred
    } else if common & DND_ACTION_COPY != 0 {
        DND_ACTION_COPY
    } else if common & DND_ACTION_MOVE != 0 {
        DND_ACTION_MOVE
    } else if common & DND_ACTION_ASK != 0 {
        DND_ACTION_ASK
    } else {
        DND_ACTION_NONE
    }
}

impl DataOfferView {
    /// The offer once a source is gone.
    pub open spec fn without_source(self, source: ClientObjectId) -> Self {
        if self.source == Some(source) {
            DataOfferView { source: None, ..self }
        } else {
            self
        }
    }
}

/// Settle on one offer what its two ends do.
pub open spec fn resolving() -> spec_fn(State, ClientObjectId) -> State {
    |s: State, offer: ClientObjectId| s.offer_resolved(offer)
}

/// Tell one device of a client that a drag is elsewhere.
pub open spec fn device_leaving(client_id: u32) -> spec_fn(State, u32) -> State {
    |s: State, device: u32| s.device_left(client_id, device)
}

/// Take back one offer of a drag.
pub open spec fn withdrawing() -> spec_fn(State, ClientObjectId) -> State {
    |s: State, offer: ClientObjectId| s.accept_cleared(offer).offer_invalidated(offer)
}

impl State {
    /// What a source allows.
    pub open spec fn actions_of(self, source: ClientObjectId) -> u32 {
        if self.data_sources.contains_key(source) {
            self.data_sources[source].actions
        } else {
            DND_ACTION_NONE
        }
    }

    /// The state once it is settled what the two ends of a dragged offer do,
    /// and both told if it is something else than before.
    pub open spec fn offer_resolved(self, key: ClientObjectId) -> Self {
        if self.data_offers.contains_key(key) {
            let offer = self.data_offers[key];
            match offer.source {
                Some(source) if offer.kind != OfferKind::Selection => {
                    let action = settled_action(
                        self.actions_of(source),
                        offer.actions,
                        offer.preferred_action,
                    );
                    if action == offer.resolved_action {
                        self
                    } else {
                        self.with_offer(
                            key,
                            DataOfferView { resolved_action: action, ..offer },
                        ).offer_action_told(key, action).source_action_told(source, action)
                    }
                },
                _ => self,
            }
        } else {
            self
        }
    }

    /// The state once it is settled what a drag comes to wherever it is.
    pub open spec fn drag_actions_resolved(self) -> Self {
        match self.drag {
            Some(d) => state::each(self, d.focus_offers, resolving()),
            None => self,
        }
    }

    /// The state once an offer's contents are forgotten. Its name is the
    /// client's to give up.
    pub open spec fn offer_invalidated(self, offer: ClientObjectId) -> Self {
        State { data_offers: self.data_offers.remove(offer), ..self }
    }

    /// The state once what was offered has been dropped.
    pub open spec fn offer_dropped(self, key: ClientObjectId) -> Self {
        if self.data_offers.contains_key(key) {
            self.with_offer(
                key,
                DataOfferView { kind: OfferKind::Dropped, ..self.data_offers[key] },
            )
        } else {
            self
        }
    }

    /// The state once something is being dragged.
    pub open spec fn drag_started(
        self,
        source: Option<ClientObjectId>,
        client_id: u32,
        origin: ClientObjectId,
        icon: Option<ClientObjectId>,
    ) -> Self {
        let s = self.pointer_taken();
        State {
            drag: Some(
                DragView {
                    source,
                    origin_client: client_id,
                    origin,
                    icon,
                    focus: None,
                    focus_offers: Seq::empty(),
                },
            ),
            ..s
        }.dirtied()
    }

    /// The state once a drag is over nothing: whoever it was over has been told
    /// so, and has nothing of it left.
    pub open spec fn drag_unfocused(self) -> Self {
        match self.drag {
            Some(d) => match d.focus {
                Some(focus) => {
                    let s = State {
                        drag: Some(DragView { focus: None, focus_offers: Seq::empty(), ..d }),
                        ..self
                    };
                    let s = state::each(s, s.devices_of(focus.0), device_leaving(focus.0));
                    state::each(s, d.focus_offers, withdrawing())
                },
                None => self,
            },
            None => self,
        }
    }

    /// The state once a drag has come to nothing.
    pub open spec fn drag_cancelled(self, notify: bool) -> Self {
        match self.drag {
            Some(d) => {
                let s = State { drag: None, ..self.drag_unfocused() }.dirtied();
                match d.source {
                    Some(source) if notify => s.source_cancelled(source),
                    _ => s,
                }
            },
            None => self,
        }
    }

    /// Whoever the drag is over has said it will take something.
    pub open spec fn target_accepted(self) -> bool {
        self.drag matches Some(d) && exists|i: int|
            0 <= i < d.focus_offers.len() && self.has_accepted(#[trigger] d.focus_offers[i])
    }

    /// An offer has been accepted.
    pub open spec fn has_accepted(self, offer: ClientObjectId) -> bool {
        self.data_offers.contains_key(offer) && self.data_offers[offer].accepted is Some
    }

    /// The state once no offer is of a source.
    pub open spec fn source_orphaned(self, source: ClientObjectId) -> Self {
        State {
            data_offers: self.data_offers.map_values(
                |o: DataOfferView| o.without_source(source),
            ),
            ..self
        }
    }

    /// The state once the client with the focus has been told what the
    /// clipboard holds.
    pub open spec fn selection_announced(self) -> Self {
        match self.focused_surface {
            Some(f) => self.selection_to_client(f.0),
            None => self,
        }
    }

    /// The state once a source is gone: from the clipboard, from a drag, and
    /// from behind every offer made of it.
    pub open spec fn source_retired(self, source: ClientObjectId, notify: bool) -> Self {
        let s = State { data_sources: self.data_sources.remove(source), ..self };
        let s = if s.drag matches Some(d) && d.source == Some(source) {
            s.drag_cancelled(false)
        } else {
            s
        };
        let s = s.source_orphaned(source);
        let s = if s.selection == Some(source) {
            State { selection: None, ..s }.selection_announced()
        } else {
            s
        };
        if notify {
            s.source_cancelled(source)
        } else {
            s
        }
    }

    /// The state once the clipboard holds something else. What it held is told
    /// it does so no longer.
    pub open spec fn selection_set(self, selection: Option<ClientObjectId>) -> Self {
        let s = match self.selection {
            Some(old) if self.selection != selection => self.source_orphaned(
                old,
            ).source_cancelled(old),
            _ => self,
        };
        State { selection, ..s }.selection_announced()
    }
}

impl CompositorState {
    /// Settle what the two ends of a dragged offer do, and tell both if that is
    /// something else than before. A clipboard has no actions to settle.
    pub fn resolve_offer_action(&mut self, key: ClientObjectId)
        requires
            old(self).wf(),
        ensures
            final(self).wf(),
            final(self)@ == old(self)@.offer_resolved(key),
    {
        let (source, accepted, preferred, resolved): (
            Option<ClientObjectId>,
            u32,
            u32,
            u32,
        ) = match self.data_offers.get(key) {
            Some(offer) => {
                if offer.kind == OfferKind::Selection {
                    return ;
                }
                (offer.source, offer.actions, offer.preferred_action, offer.resolved_action)
            },
            None => {
                return ;
            },
        };
        let source = match source {
            Some(source) => source,
            None => {
                return ;
            },
        };
        let allowed: u32 = match self.data_sources.get(source) {
            Some(data) => data.actions,
            None => DND_ACTION_NONE,
        };
        let action: u32 = settle_action(allowed, accepted, preferred);
        if action == resolved {
            return ;
        }
        if let Some(offer) = self.data_offers.get_mut(key) {
            offer.resolved_action = action;
        }
        wl_data_offer::send_action(self, key, action);
        wl_data_source::send_action(self, source, action);
    }

    /// Settle again what the drag comes to wherever it is.
    pub fn resolve_drag_actions(&mut self)
        requires
            old(self).wf(),
        ensures
            final(self).wf(),
            final(self)@ == old(self)@.drag_actions_resolved(),
    {
        let offers = match &self.drag {
            Some(drag) => copy_keys(&drag.focus_offers),
            None => {
                return ;
            },
        };
        let ghost start = self@;
        let mut i: usize = 0;
        proof {
            state::lemma_each_ends(start, offers@, resolving());
        }
        while i < offers.len()
            invariant
                self.wf(),
                i <= offers@.len(),
                self@ == state::each(start, offers@.take(i as int), resolving()),
            decreases offers@.len() - i,
        {
            proof {
                state::lemma_each_step(start, offers@, resolving(), i as int);
            }
            self.resolve_offer_action(offers[i]);
            i = i + 1;
        }
        proof {
            state::lemma_each_ends(start, offers@, resolving());
        }
    }

    /// Forget what is behind an offer. The client keeps the name until it
    /// destroys it.
    pub fn invalidate_offer(&mut self, offer: ClientObjectId)
        requires
            old(self).wf(),
        ensures
            final(self).wf(),
            final(self)@ == old(self)@.offer_invalidated(offer),
    {
        self.data_offers.remove(offer);
    }

    /// What was offered has been dropped: it lives on until it has been read.
    pub fn mark_offer_dropped(&mut self, key: ClientObjectId)
        requires
            old(self).wf(),
        ensures
            final(self).wf(),
            final(self)@ == old(self)@.offer_dropped(key),
    {
        if let Some(offer) = self.data_offers.get_mut(key) {
            offer.kind = OfferKind::Dropped;
        }
    }

    /// Begin to drag something.
    ///
    /// The pointer is taken from whoever had it, so the client stops drawing a
    /// hover state.
    pub fn start_drag(
        &mut self,
        source: Option<ClientObjectId>,
        client_id: u32,
        origin: ClientObjectId,
        icon: Option<ClientObjectId>,
    )
        requires
            old(self).wf(),
        ensures
            final(self).wf(),
            final(self)@ == old(self)@.drag_started(source, client_id, origin, icon),
    {
        self.release_pointer_to_grab();
        self.drag = Some(
            Drag {
                source,
                origin_client: client_id,
                origin,
                icon,
                focus: None,
                focus_offers: Vec::new(),
            },
        );
        self.dirty = true;
    }

    /// Have the drag be over nothing, and tell whoever it was over.
    pub fn end_drag_focus(&mut self)
        requires
            old(self).wf(),
        ensures
            final(self).wf(),
            final(self)@ == old(self)@.drag_unfocused(),
    {
        let (focus, offers) = match self.drag.take() {
            Some(mut drag) => match drag.focus {
                Some(focus) => {
                    let mut offers: Vec<ClientObjectId> = Vec::new();
                    std::mem::swap(&mut offers, &mut drag.focus_offers);
                    drag.focus = None;
                    self.drag = Some(drag);
                    (focus, offers)
                },
                None => {
                    self.drag = Some(drag);
                    return ;
                },
            },
            None => {
                return ;
            },
        };
        let devices = wl_data_device::devices_of(self, focus.0);
        let ghost start = self@;
        let mut i: usize = 0;
        proof {
            state::lemma_each_ends(start, devices@, device_leaving(focus.0));
        }
        while i < devices.len()
            invariant
                self.wf(),
                i <= devices@.len(),
                self@ == state::each(start, devices@.take(i as int), device_leaving(focus.0)),
            decreases devices@.len() - i,
        {
            proof {
                state::lemma_each_step(start, devices@, device_leaving(focus.0), i as int);
            }
            wl_data_device::send_leave(self, focus.0, devices[i]);
            i = i + 1;
        }
        proof {
            state::lemma_each_ends(start, devices@, device_leaving(focus.0));
        }
        let ghost start = self@;
        let mut i: usize = 0;
        proof {
            state::lemma_each_ends(start, offers@, withdrawing());
        }
        while i < offers.len()
            invariant
                self.wf(),
                i <= offers@.len(),
                self@ == state::each(start, offers@.take(i as int), withdrawing()),
            decreases offers@.len() - i,
        {
            proof {
                state::lemma_each_step(start, offers@, withdrawing(), i as int);
            }
            wl_data_device::clear_accepted(self, offers[i]);
            self.invalidate_offer(offers[i]);
            i = i + 1;
        }
        proof {
            state::lemma_each_ends(start, offers@, withdrawing());
        }
    }

    /// Abandon the drag, telling its source if that is wanted.
    fn drop_drag(&mut self, notify: bool)
        requires
            old(self).wf(),
        ensures
            final(self).wf(),
            final(self)@ == old(self)@.drag_cancelled(notify),
    {
        let source = match &self.drag {
            Some(drag) => drag.source,
            None => {
                return ;
            },
        };
        self.end_drag_focus();
        self.drag = None;
        self.dirty = true;
        if notify {
            if let Some(source) = source {
                wl_data_source::send_cancelled(self, source);
            }
        }
    }

    /// Abandon the drag.
    pub fn cancel_drag(&mut self)
        requires
            old(self).wf(),
        ensures
            final(self).wf(),
            final(self)@ == old(self)@.drag_cancelled(true),
    {
        self.drop_drag(true);
    }

    /// Whether whoever the drag is over has said it will take something.
    pub fn drag_target_accepted(&self) -> (r: bool)
        requires
            self.wf(),
        ensures
            r == self@.target_accepted(),
    {
        match &self.drag {
            Some(drag) => {
                let mut i: usize = 0;
                while i < drag.focus_offers.len()
                    invariant
                        self.wf(),
                        i <= drag.focus_offers@.len(),
                        self@.drag == Some(drag@),
                        forall|j: int|
                            0 <= j < i ==> !self@.has_accepted(#[trigger] drag.focus_offers@[j]),
                    decreases drag.focus_offers@.len() - i,
                {
                    let offer = drag.focus_offers[i];
                    let accepted = match self.data_offers.get(offer) {
                        Some(o) => o.accepted.is_some(),
                        None => false,
                    };
                    if accepted {
                        assert(self@.has_accepted(drag@.focus_offers[i as int]));
                        return true;
                    }
                    i = i + 1;
                }
                false
            },
            None => false,
        }
    }

    /// Have no offer be of a source.
    fn orphan_source(&mut self, source: ClientObjectId)
        requires
            old(self).wf(),
        ensures
            final(self).wf(),
            final(self)@ == old(self)@.source_orphaned(source),
    {
        let keys = self.data_offers.keys();
        let ghost before = self@;
        let mut i: usize = 0;
        while i < keys.len()
            invariant
                self.wf(),
                i <= keys@.len(),
                table::lists(keys@, before.data_offers.dom()),
                self@ == (State { data_offers: self@.data_offers, ..before }),
                self@.data_offers.dom() == before.data_offers.dom(),
                forall|j: int|
                    0 <= j < i ==> self@.data_offers[#[trigger] keys@[j]]
                        == before.data_offers[keys@[j]].without_source(source),
                forall|j: int|
                    i <= j < keys@.len() ==> self@.data_offers[#[trigger] keys@[j]]
                        == before.data_offers[keys@[j]],
            decreases keys@.len() - i,
        {
            let k = keys[i];
            let ghost current = self@;
            proof {
                assert(keys@.contains(k));
                table::lemma_increasing_apart(keys@, i as int);
            }
            if let Some(offer) = self.data_offers.get_mut(k) {
                let ours = match offer.source {
                    Some(s) => s.0 == source.0 && s.1 == source.1,
                    None => false,
                };
                if ours {
                    offer.source = None;
                }
            }
            proof {
                assert(self@.data_offers.dom() =~= before.data_offers.dom());
                assert(state::texts_fit(self@.data_sources, self@.data_offers, self@.outputs)) by {
                    assert forall|k2: ClientObjectId|
                        #![trigger self@.data_offers[k2]]
                        self@.data_offers.contains_key(k2)
                            && self@.data_offers[k2].accepted is Some implies wire::writable(
                        self@.data_offers[k2].accepted.unwrap(),
                    ) by {
                        assert(current.data_offers[k2].accepted == self@.data_offers[k2].accepted);
                    }
                }
            }
            i = i + 1;
        }
        proof {
            assert forall|k: ClientObjectId| before.data_offers.contains_key(k) implies
                #[trigger] self@.data_offers[k] == before.data_offers[k].without_source(source) by {
                assert(keys@.contains(k));
            }
            assert(self@.data_offers =~= before.source_orphaned(source).data_offers);
        }
    }

    /// Tell the client with the focus what the clipboard holds.
    fn announce_selection(&mut self)
        requires
            old(self).wf(),
        ensures
            final(self).wf(),
            final(self)@ == old(self)@.selection_announced(),
    {
        if let Some(focused) = self.focused_surface {
            wl_data_device::send_selection_to_client(self, focused.0);
        }
    }

    /// A source is gone, and everything that was to be had of it with it. Tell
    /// it so, unless it is its own client that did away with it.
    pub fn retire_data_source(&mut self, source: ClientObjectId, notify: bool)
        requires
            old(self).wf(),
        ensures
            final(self).wf(),
            final(self)@ == old(self)@.source_retired(source, notify),
    {
        self.data_sources.remove(source);
        let dragged = match &self.drag {
            Some(drag) => match drag.source {
                Some(s) => s.0 == source.0 && s.1 == source.1,
                None => false,
            },
            None => false,
        };
        if dragged {
            self.drop_drag(false);
        }
        self.orphan_source(source);
        let selected = match self.selection {
            Some(s) => s.0 == source.0 && s.1 == source.1,
            None => false,
        };
        if selected {
            self.selection = None;
            self.announce_selection();
        }
        if notify {
            wl_data_source::send_cancelled(self, source);
        }
    }

    /// Put something else on the clipboard, or nothing.
    pub fn set_selection(&mut self, selection: Option<ClientObjectId>)
        requires
            old(self).wf(),
        ensures
            final(self).wf(),
            final(self)@ == old(self)@.selection_set(selection),
    {
        if let Some(old_source) = self.selection {
            let same = match selection {
                Some(s) => s.0 == old_source.0 && s.1 == old_source.1,
                None => false,
            };
            if !same {
                self.orphan_source(old_source);
                wl_data_source::send_cancelled(self, old_source);
            }
        }
        self.selection = selection;
        self.announce_selection();
    }
}

/// The two ends of a drag settle on something both allow, or on nothing; and
/// where they have anything in common, they do not settle on nothing.
pub proof fn law_settled_actions_are_shared(allowed: u32, accepted: u32, preferred: u32)
    requires
        preferred == DND_ACTION_NONE || preferred == DND_ACTION_COPY || preferred
            == DND_ACTION_MOVE || preferred == DND_ACTION_ASK,
    ensures
        settled_action(allowed, accepted, preferred) != DND_ACTION_NONE ==> settled_action(
            allowed,
            accepted,
            preferred,
        ) & allowed & accepted == settled_action(allowed, accepted, preferred),
        allowed & accepted & preferred != 0 ==> settled_action(allowed, accepted, preferred)
            == preferred,
        allowed & accepted & 7 != 0 ==> settled_action(allowed, accepted, preferred)
            != DND_ACTION_NONE,
{
    assert(forall|a: u32, b: u32, p: u32|
        (p == 1 || p == 2 || p == 4) && #[trigger] (a & b & p) != 0 ==> p & a & b == p)
        by (bit_vector);
    assert(forall|a: u32, b: u32|
        #[trigger] (a & b & 7) != 0 ==> a & b & 1 != 0 || a & b & 2 != 0 || a & b & 4 != 0)
        by (bit_vector);
    assert(allowed & accepted & 0 == 0) by (bit_vector);
    assert(allowed & accepted & preferred != 0 ==> preferred & allowed & accepted == preferred);
    assert(allowed & accepted & 1 != 0 ==> 1 & allowed & accepted == 1);
    assert(allowed & accepted & 2 != 0 ==> 2 & allowed & accepted == 2);
    assert(allowed & accepted & 4 != 0 ==> 4 & allowed & accepted == 4);
}

} // verus!

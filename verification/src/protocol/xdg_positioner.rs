//! `xdg_positioner` protocol handler.
//!
//! A positioner describes how a popup surface should be placed relative to
//! its parent. Clients set size, anchor rect, anchor edge, gravity, offset,
//! and constraint adjustments before passing the positioner to `get_popup`.
//! What comes of them is in [`crate::positioner`].

use crate::positioner::{
    ConstraintAdjustments, XdgPositionerAnchor, XdgPositionerGravity, XdgPositionerState,
    ALL_ADJUSTMENTS,
};
use crate::protocol::{acknowledge, malformed_request, unknown_request};
use crate::state::{CompositorState, State};
use crate::wire::{ArgReader, Request, WaylandProtocolMessageWithClientInfo};
use vstd::prelude::*;

verus! {

// Request opcodes
pub const DESTROY: u16 = 0;

pub const SET_SIZE: u16 = 1;

pub const SET_ANCHOR_RECT: u16 = 2;

pub const SET_ANCHOR: u16 = 3;

pub const SET_GRAVITY: u16 = 4;

pub const SET_CONSTRAINT_ADJUSTMENT: u16 = 5;

pub const SET_OFFSET: u16 = 6;

// Since version 3
pub const SET_REACTIVE: u16 = 7;

pub const SET_PARENT_SIZE: u16 = 8;

pub const SET_PARENT_CONFIGURE: u16 = 9;

/// What a request makes of a positioner. Nothing if its arguments do not
/// decode.
pub open spec fn positioner_after(p: XdgPositionerState, r: Request) -> Option<XdgPositionerState> {
    if r.op == SET_SIZE {
        match (r.signed(0), r.signed(4)) {
            (Some(width), Some(height)) => Some(XdgPositionerState { width, height, ..p }),
            _ => None,
        }
    } else if r.op == SET_ANCHOR_RECT {
        match (r.signed(0), r.signed(4), r.signed(8), r.signed(12)) {
            (Some(x), Some(y), Some(w), Some(h)) => Some(
                XdgPositionerState { anchor_rect: (x, y, w, h), ..p },
            ),
            _ => None,
        }
    } else if r.op == SET_ANCHOR {
        match r.word(0) {
            Some(n) => match XdgPositionerAnchor::numbered(n) {
                Some(anchor) => Some(XdgPositionerState { anchor, ..p }),
                None => None,
            },
            None => None,
        }
    } else if r.op == SET_GRAVITY {
        match r.word(0) {
            Some(n) => match XdgPositionerGravity::numbered(n) {
                Some(gravity) => Some(XdgPositionerState { gravity, ..p }),
                None => None,
            },
            None => None,
        }
    } else if r.op == SET_CONSTRAINT_ADJUSTMENT {
        match r.word(0) {
            Some(bits) => Some(
                XdgPositionerState {
                    constraint_adjustment: ConstraintAdjustments(bits & ALL_ADJUSTMENTS),
                    ..p
                },
            ),
            None => None,
        }
    } else if r.op == SET_OFFSET {
        match (r.signed(0), r.signed(4)) {
            (Some(x), Some(y)) => Some(XdgPositionerState { offset: (x, y), ..p }),
            _ => None,
        }
    } else if r.op == SET_REACTIVE {
        Some(XdgPositionerState { reactive: true, ..p })
    } else if r.op == SET_PARENT_SIZE {
        match (r.signed(0), r.signed(4)) {
            (Some(width), Some(height)) => Some(
                XdgPositionerState {
                    parent_size: if width > 0 && height > 0 {
                        Some((width, height))
                    } else {
                        None
                    },
                    ..p
                },
            ),
            _ => None,
        }
    } else {
        Some(p)
    }
}

/// How many words a request about a positioner carries.
pub open spec fn positioner_words(op: u16) -> nat {
    if op == SET_ANCHOR_RECT {
        4
    } else if op == SET_SIZE || op == SET_OFFSET || op == SET_PARENT_SIZE {
        2
    } else if op == SET_REACTIVE {
        0
    } else {
        1
    }
}

impl State {
    /// The state once a client has said something about a positioner. What it
    /// says of one that is not there says nothing, as long as it is all there.
    pub open spec fn positioner_changed(self, r: Request) -> Self {
        if r.args.len() < 4 * positioner_words(r.op) {
            self.malformed(r, "xdg_positioner"@)
        } else if !self.xdg_positioners.contains_key(r.key()) {
            self
        } else {
            match positioner_after(self.xdg_positioners[r.key()], r) {
                Some(p) => State {
                    xdg_positioners: self.xdg_positioners.insert(r.key(), p),
                    ..self
                },
                None => self.malformed(r, "xdg_positioner"@),
            }
        }
    }

    /// The state once an `xdg_positioner` request has been handled.
    pub open spec fn xdg_positioner_handled(self, r: Request) -> Self {
        if r.op == DESTROY {
            self.positioner_destroyed(r.client, r.object).unregistered(r.client, r.object)
        } else if r.op > SET_PARENT_CONFIGURE {
            self.rejected(r, "xdg_positioner"@)
        } else {
            self.positioner_changed(r)
        }
    }
}

pub fn handle(state: &mut CompositorState, msg: &WaylandProtocolMessageWithClientInfo)
    requires
        old(state).wf(),
    ensures
        final(state).wf(),
        final(state)@ == old(state)@.xdg_positioner_handled(msg@),
{
    proof {
        reveal_strlit("xdg_positioner");
    }
    let op: u16 = msg.message.op_code;
    if op == DESTROY {
        state.destroy_xdg_positioner(msg.client_id, msg.message.object_id);
        state.unregister(msg.client_id, msg.message.object_id);
    } else if op > SET_PARENT_CONFIGURE {
        unknown_request(state, msg, "xdg_positioner");
    } else {
        handle_set(state, msg);
    }
}

fn handle_set(state: &mut CompositorState, msg: &WaylandProtocolMessageWithClientInfo)
    requires
        old(state).wf(),
    ensures
        final(state).wf(),
        final(state)@ == old(state)@.positioner_changed(msg@),
{
    proof {
        reveal_strlit("xdg_positioner");
    }
    let words: usize = match msg.message.op_code {
        SET_ANCHOR_RECT => 4,
        SET_SIZE | SET_OFFSET | SET_PARENT_SIZE => 2,
        SET_REACTIVE => 0,
        _ => 1,
    };
    if !acknowledge(state, msg, words, "xdg_positioner") {
        return ;
    }
    let key = (msg.client_id, msg.message.object_id);
    let before = match state.xdg_positioners.get(key) {
        Some(p) => *p,
        None => {
            return ;
        },
    };
    match change(before, msg) {
        Some(p) => {
            if let Some(entry) = state.xdg_positioners.get_mut(key) {
                *entry = p;
            }
        },
        None => malformed_request(state, msg, "xdg_positioner"),
    }
}

/// What a request makes of a positioner. A size, an anchor or a gravity the
/// protocol does not have does not decode.
fn change(before: XdgPositionerState, msg: &WaylandProtocolMessageWithClientInfo) -> (r: Option<
    XdgPositionerState,
>)
    ensures
        r == positioner_after(before, msg@),
{
    let mut p = before;
    let mut args = ArgReader::new(msg.message.args.as_slice());
    match msg.message.op_code {
        SET_SIZE => {
            let (width, height) = (args.i32(), args.i32());
            match (width, height) {
                (Some(width), Some(height)) => {
                    p.width = width;
                    p.height = height;
                },
                _ => {
                    return None;
                },
            }
        },
        SET_ANCHOR_RECT => {
            let (x, y, w, h) = (args.i32(), args.i32(), args.i32(), args.i32());
            match (x, y, w, h) {
                (Some(x), Some(y), Some(w), Some(h)) => {
                    p.anchor_rect = (x, y, w, h);
                },
                _ => {
                    return None;
                },
            }
        },
        SET_ANCHOR => match args.u32() {
            Some(n) => match XdgPositionerAnchor::from_repr(n) {
                Some(anchor) => {
                    p.anchor = anchor;
                },
                None => {
                    return None;
                },
            },
            None => {
                return None;
            },
        },
        SET_GRAVITY => match args.u32() {
            Some(n) => match XdgPositionerGravity::from_repr(n) {
                Some(gravity) => {
                    p.gravity = gravity;
                },
                None => {
                    return None;
                },
            },
            None => {
                return None;
            },
        },
        SET_CONSTRAINT_ADJUSTMENT => match args.u32() {
            Some(bits) => {
                p.constraint_adjustment = ConstraintAdjustments::from_bits_truncate(bits);
            },
            None => {
                return None;
            },
        },
        SET_OFFSET => {
            let (x, y) = (args.i32(), args.i32());
            match (x, y) {
                (Some(x), Some(y)) => {
                    p.offset = (x, y);
                },
                _ => {
                    return None;
                },
            }
        },
        // No arguments: asking at all is the request.
        SET_REACTIVE => {
            p.reactive = true;
        },
        SET_PARENT_SIZE => {
            let (width, height) = (args.i32(), args.i32());
            match (width, height) {
                (Some(width), Some(height)) => {
                    // Zero means the client is withdrawing the hint, not
                    // claiming a zero-sized parent - constraining against that
                    // would put every popup in the same corner.
                    p.parent_size = if width > 0 && height > 0 {
                        Some((width, height))
                    } else {
                        None
                    };
                },
                _ => {
                    return None;
                },
            }
        },
        // The serial of a parent configure this positioner is meant to go with.
        // It would only matter if popup placement were deferred until the
        // parent acknowledged that configure, and placement happens immediately
        // against the geometry the compositor already has.
        _ => {},
    }
    Some(p)
}

} // verus!

//! Where a popup goes.
//!
//! A positioner describes how a popup surface should be placed relative to
//! its parent: size, anchor rect, anchor edge, gravity, offset, and what may be
//! done about a place that is off the screen.

use crate::objects::{self, saturating_difference, saturating_sum};
use vstd::prelude::*;

verus! {

/// Which part of the anchor rectangle a popup hangs off.
#[derive(Debug, Clone, Copy, PartialEq, Eq, Structural)]
pub enum XdgPositionerAnchor {
    Unset,
    Top,
    Bottom,
    Left,
    Right,
    TopLeft,
    BottomLeft,
    TopRight,
    BottomRight,
}

/// Which way a popup extends from its anchor.
#[derive(Debug, Clone, Copy, PartialEq, Eq, Structural)]
pub enum XdgPositionerGravity {
    Unset,
    Top,
    Bottom,
    Left,
    Right,
    TopLeft,
    BottomLeft,
    TopRight,
    BottomRight,
}

/// One thing that may be done to keep a popup on the screen.
#[derive(Debug, Clone, Copy, PartialEq, Eq, Structural)]
pub enum XdgPositionerConstraintAdjustment {
    SlideX,
    SlideY,
    FlipX,
    FlipY,
    ResizeX,
    ResizeY,
}

impl XdgPositionerAnchor {
    /// The anchor with this number on the wire.
    pub open spec fn numbered(n: u32) -> Option<Self> {
        match n {
            0 => Some(XdgPositionerAnchor::Unset),
            1 => Some(XdgPositionerAnchor::Top),
            2 => Some(XdgPositionerAnchor::Bottom),
            3 => Some(XdgPositionerAnchor::Left),
            4 => Some(XdgPositionerAnchor::Right),
            5 => Some(XdgPositionerAnchor::TopLeft),
            6 => Some(XdgPositionerAnchor::BottomLeft),
            7 => Some(XdgPositionerAnchor::TopRight),
            8 => Some(XdgPositionerAnchor::BottomRight),
            _ => None,
        }
    }

    /// The anchor with this number on the wire.
    pub fn from_repr(n: u32) -> (r: Option<Self>)
        ensures
            r == Self::numbered(n),
    {
        match n {
            0 => Some(XdgPositionerAnchor::Unset),
            1 => Some(XdgPositionerAnchor::Top),
            2 => Some(XdgPositionerAnchor::Bottom),
            3 => Some(XdgPositionerAnchor::Left),
            4 => Some(XdgPositionerAnchor::Right),
            5 => Some(XdgPositionerAnchor::TopLeft),
            6 => Some(XdgPositionerAnchor::BottomLeft),
            7 => Some(XdgPositionerAnchor::TopRight),
            8 => Some(XdgPositionerAnchor::BottomRight),
            _ => None,
        }
    }
}

impl XdgPositionerGravity {
    /// The gravity with this number on the wire.
    pub open spec fn numbered(n: u32) -> Option<Self> {
        match n {
            0 => Some(XdgPositionerGravity::Unset),
            1 => Some(XdgPositionerGravity::Top),
            2 => Some(XdgPositionerGravity::Bottom),
            3 => Some(XdgPositionerGravity::Left),
            4 => Some(XdgPositionerGravity::Right),
            5 => Some(XdgPositionerGravity::TopLeft),
            6 => Some(XdgPositionerGravity::BottomLeft),
            7 => Some(XdgPositionerGravity::TopRight),
            8 => Some(XdgPositionerGravity::BottomRight),
            _ => None,
        }
    }

    /// The gravity with this number on the wire.
    pub fn from_repr(n: u32) -> (r: Option<Self>)
        ensures
            r == Self::numbered(n),
    {
        match n {
            0 => Some(XdgPositionerGravity::Unset),
            1 => Some(XdgPositionerGravity::Top),
            2 => Some(XdgPositionerGravity::Bottom),
            3 => Some(XdgPositionerGravity::Left),
            4 => Some(XdgPositionerGravity::Right),
            5 => Some(XdgPositionerGravity::TopLeft),
            6 => Some(XdgPositionerGravity::BottomLeft),
            7 => Some(XdgPositionerGravity::TopRight),
            8 => Some(XdgPositionerGravity::BottomRight),
            _ => None,
        }
    }
}

impl XdgPositionerConstraintAdjustment {
    /// The bit it has on the wire.
    pub open spec fn flag(self) -> u32 {
        match self {
            XdgPositionerConstraintAdjustment::SlideX => 1,
            XdgPositionerConstraintAdjustment::SlideY => 2,
            XdgPositionerConstraintAdjustment::FlipX => 4,
            XdgPositionerConstraintAdjustment::FlipY => 8,
            XdgPositionerConstraintAdjustment::ResizeX => 16,
            XdgPositionerConstraintAdjustment::ResizeY => 32,
        }
    }

    /// The bit it has on the wire.
    pub fn bit(self) -> (r: u32)
        ensures
            r == self.flag(),
    {
        match self {
            XdgPositionerConstraintAdjustment::SlideX => 1,
            XdgPositionerConstraintAdjustment::SlideY => 2,
            XdgPositionerConstraintAdjustment::FlipX => 4,
            XdgPositionerConstraintAdjustment::FlipY => 8,
            XdgPositionerConstraintAdjustment::ResizeX => 16,
            XdgPositionerConstraintAdjustment::ResizeY => 32,
        }
    }
}

/// Everything that may be done to keep a popup on the screen.
#[derive(Debug, Clone, Copy, PartialEq, Eq, Structural)]
pub struct ConstraintAdjustments(pub u32);

/// Every bit that means something.
pub const ALL_ADJUSTMENTS: u32 = 0x3f;

impl ConstraintAdjustments {
    /// This may be done.
    pub open spec fn allows(self, a: XdgPositionerConstraintAdjustment) -> bool {
        self.0 & a.flag() == a.flag()
    }

    /// Nothing may be done.
    pub fn empty() -> (r: Self)
        ensures
            r == ConstraintAdjustments(0),
    {
        ConstraintAdjustments(0)
    }

    /// What a client asked for, bits that mean nothing left out.
    pub fn from_bits_truncate(bits: u32) -> (r: Self)
        ensures
            r == ConstraintAdjustments(bits & ALL_ADJUSTMENTS),
    {
        ConstraintAdjustments(bits & ALL_ADJUSTMENTS)
    }

    /// Whether this may be done.
    pub fn contains(self, a: XdgPositionerConstraintAdjustment) -> (r: bool)
        ensures
            r == self.allows(a),
    {
        self.0 & a.bit() == a.bit()
    }

    /// This, and one thing more.
    pub fn with(self, a: XdgPositionerConstraintAdjustment) -> (r: Self)
        ensures
            r == ConstraintAdjustments(self.0 | a.flag()),
    {
        ConstraintAdjustments(self.0 | a.bit())
    }
}

/// Leaving out the bits that mean nothing changes nothing that may be done.
pub proof fn law_truncation_keeps_adjustments(bits: u32, a: XdgPositionerConstraintAdjustment)
    ensures
        ConstraintAdjustments(bits & ALL_ADJUSTMENTS).allows(a) == ConstraintAdjustments(
            bits,
        ).allows(a),
{
    assert((bits & 0x3f) & 1 == bits & 1 && (bits & 0x3f) & 2 == bits & 2 && (bits & 0x3f) & 4
        == bits & 4 && (bits & 0x3f) & 8 == bits & 8 && (bits & 0x3f) & 16 == bits & 16 && (bits
        & 0x3f) & 32 == bits & 32) by (bit_vector);
}

/// An `xdg_positioner` object.
#[derive(Debug, Clone, Copy, PartialEq, Eq)]
pub struct XdgPositionerState {
    pub client_id: u32,
    pub width: i32,
    pub height: i32,
    pub anchor_rect: (i32, i32, i32, i32),
    pub anchor: XdgPositionerAnchor,
    pub gravity: XdgPositionerGravity,
    pub offset: (i32, i32),
    pub constraint_adjustment: ConstraintAdjustments,
    /// The popup should be placed again when what it was placed against moves.
    pub reactive: bool,
    /// The size the client says its parent has or will have.
    pub parent_size: Option<(i32, i32)>,
}

impl View for XdgPositionerState {
    type V = XdgPositionerState;

    open spec fn view(&self) -> XdgPositionerState {
        *self
    }
}

impl XdgPositionerState {
    /// A positioner that has just been created.
    pub open spec fn fresh(client_id: u32) -> Self {
        XdgPositionerState {
            client_id,
            width: 0,
            height: 0,
            anchor_rect: (0, 0, 0, 0),
            anchor: XdgPositionerAnchor::Unset,
            gravity: XdgPositionerGravity::Unset,
            offset: (0, 0),
            constraint_adjustment: ConstraintAdjustments(0),
            reactive: false,
            parent_size: None,
        }
    }

    /// A positioner that has just been created.
    pub fn new(client_id: u32) -> (r: Self)
        ensures
            r == Self::fresh(client_id),
    {
        XdgPositionerState {
            client_id,
            width: 0,
            height: 0,
            anchor_rect: (0, 0, 0, 0),
            anchor: XdgPositionerAnchor::Unset,
            gravity: XdgPositionerGravity::Unset,
            offset: (0, 0),
            constraint_adjustment: ConstraintAdjustments(0),
            reactive: false,
            parent_size: None,
        }
    }
}

/// Half of a length, rounded toward zero.
pub open spec fn halved(v: int) -> int {
    if v >= 0 {
        v / 2
    } else {
        -((-v) / 2)
    }
}

/// Half of a length, rounded toward zero.
pub fn half(v: i32) -> (r: i32)
    ensures
        r == halved(v as int),
{
    if v >= 0 {
        v / 2
    } else {
        let w: i64 = -(v as i64);
        let h: i64 = w / 2;
        (-h) as i32
    }
}

/// Which end of a span something names: its near one, its far one or neither.
pub enum End {
    Near,
    Middle,
    Far,
}

impl XdgPositionerAnchor {
    /// Which end of the anchor rectangle is named from left to right.
    pub open spec fn across(self) -> End {
        match self {
            XdgPositionerAnchor::Left
            | XdgPositionerAnchor::TopLeft
            | XdgPositionerAnchor::BottomLeft => End::Near,
            XdgPositionerAnchor::Right
            | XdgPositionerAnchor::TopRight
            | XdgPositionerAnchor::BottomRight => End::Far,
            _ => End::Middle,
        }
    }

    /// Which end of the anchor rectangle is named from top to bottom.
    pub open spec fn down(self) -> End {
        match self {
            XdgPositionerAnchor::Top
            | XdgPositionerAnchor::TopLeft
            | XdgPositionerAnchor::TopRight => End::Near,
            XdgPositionerAnchor::Bottom
            | XdgPositionerAnchor::BottomLeft
            | XdgPositionerAnchor::BottomRight => End::Far,
            _ => End::Middle,
        }
    }
}

impl XdgPositionerGravity {
    /// Which way the popup extends from left to right.
    pub open spec fn across(self) -> End {
        match self {
            XdgPositionerGravity::Left
            | XdgPositionerGravity::TopLeft
            | XdgPositionerGravity::BottomLeft => End::Near,
            XdgPositionerGravity::Right
            | XdgPositionerGravity::TopRight
            | XdgPositionerGravity::BottomRight => End::Far,
            _ => End::Middle,
        }
    }

    /// Which way the popup extends from top to bottom.
    pub open spec fn down(self) -> End {
        match self {
            XdgPositionerGravity::Top
            | XdgPositionerGravity::TopLeft
            | XdgPositionerGravity::TopRight => End::Near,
            XdgPositionerGravity::Bottom
            | XdgPositionerGravity::BottomLeft
            | XdgPositionerGravity::BottomRight => End::Far,
            _ => End::Middle,
        }
    }
}

/// Where along one axis a popup starts: a point of the anchor rectangle, less
/// as much of the popup as extends the other way, and the offset.
pub open spec fn wanted(
    anchor: End,
    gravity: End,
    rect_start: i32,
    rect_size: i32,
    size: i32,
    offset: i32,
) -> i32 {
    let point = match anchor {
        End::Near => rect_start,
        End::Far => objects::saturated(rect_start + rect_size),
        End::Middle => objects::saturated(rect_start + halved(rect_size as int)),
    };
    let start = match gravity {
        End::Near => objects::saturated(point - size),
        End::Far => point,
        End::Middle => objects::saturated(point - halved(size as int)),
    };
    objects::saturated(start + offset)
}

impl XdgPositionerState {
    /// Where the popup wants to be from left to right, hung this way.
    pub open spec fn wanted_x(
        self,
        anchor: XdgPositionerAnchor,
        gravity: XdgPositionerGravity,
    ) -> i32 {
        wanted(
            anchor.across(),
            gravity.across(),
            self.anchor_rect.0,
            self.anchor_rect.2,
            self.width,
            self.offset.0,
        )
    }

    /// Where the popup wants to be from top to bottom, hung this way.
    pub open spec fn wanted_y(
        self,
        anchor: XdgPositionerAnchor,
        gravity: XdgPositionerGravity,
    ) -> i32 {
        wanted(
            anchor.down(),
            gravity.down(),
            self.anchor_rect.1,
            self.anchor_rect.3,
            self.height,
            self.offset.1,
        )
    }

    /// This may be done to keep the popup on the screen.
    pub open spec fn allows(self, a: XdgPositionerConstraintAdjustment) -> bool {
        self.constraint_adjustment.allows(a)
    }
}

/// A span of `size` starting at `start` lies inside `[origin, origin + extent)`.
pub open spec fn inside(start: i32, size: i32, origin: i32, extent: i32) -> bool {
    start >= origin && objects::saturated(start + size) <= objects::saturated(origin + extent)
}

/// A span moved back inside, its near edge in whatever happens.
pub open spec fn slid(start: i32, size: i32, origin: i32, extent: i32) -> i32 {
    let limit = objects::saturated(objects::saturated(origin + extent) - size);
    let start = if start < limit {
        start
    } else {
        limit
    };
    if start > origin {
        start
    } else {
        origin
    }
}

/// A span cut down to what is inside, but never to nothing.
pub open spec fn shrunk(start: i32, size: i32, origin: i32, extent: i32) -> (i32, i32) {
    let start = if start > origin {
        start
    } else {
        origin
    };
    let room = objects::saturated(objects::saturated(origin + extent) - start);
    let size = if size < room {
        size
    } else {
        room
    };
    (
        start,
        if size > 1 {
            size
        } else {
            1
        },
    )
}

/// A span once it has been flipped if that helps, slid if it still does not
/// fit, and cut if it still does not fit after that, as far as each is allowed.
pub open spec fn settled(
    start: i32,
    size: i32,
    flipped: i32,
    flip: bool,
    slide: bool,
    resize: bool,
    origin: i32,
    extent: i32,
) -> (i32, i32) {
    let a = if flip && !inside(start, size, origin, extent) && inside(
        flipped,
        size,
        origin,
        extent,
    ) {
        flipped
    } else {
        start
    };
    let b = if slide && !inside(a, size, origin, extent) {
        slid(a, size, origin, extent)
    } else {
        a
    };
    if resize && !inside(b, size, origin, extent) {
        shrunk(b, size, origin, extent)
    } else {
        (b, size)
    }
}

/// Where a popup is and how wide, from left to right.
pub open spec fn placed_x(pos: XdgPositionerState, available: Option<(i32, i32, i32, i32)>) -> (
    i32,
    i32,
) {
    let x = pos.wanted_x(pos.anchor, pos.gravity);
    match available {
        None => (x, pos.width),
        Some((ax, _, aw, _)) => settled(
            x,
            pos.width,
            pos.wanted_x(anchor_mirrored(pos.anchor), gravity_mirrored(pos.gravity)),
            pos.allows(XdgPositionerConstraintAdjustment::FlipX),
            pos.allows(XdgPositionerConstraintAdjustment::SlideX),
            pos.allows(XdgPositionerConstraintAdjustment::ResizeX),
            ax,
            aw,
        ),
    }
}

/// Where a popup is and how high, from top to bottom.
pub open spec fn placed_y(pos: XdgPositionerState, available: Option<(i32, i32, i32, i32)>) -> (
    i32,
    i32,
) {
    let y = pos.wanted_y(pos.anchor, pos.gravity);
    match available {
        None => (y, pos.height),
        Some((_, ay, _, ah)) => settled(
            y,
            pos.height,
            pos.wanted_y(anchor_upended(pos.anchor), gravity_upended(pos.gravity)),
            pos.allows(XdgPositionerConstraintAdjustment::FlipY),
            pos.allows(XdgPositionerConstraintAdjustment::SlideY),
            pos.allows(XdgPositionerConstraintAdjustment::ResizeY),
            ay,
            ah,
        ),
    }
}

/// Where a popup is and how large: `(x, y, width, height)`.
pub open spec fn placement(pos: XdgPositionerState, available: Option<(i32, i32, i32, i32)>) -> (
    i32,
    i32,
    i32,
    i32,
) {
    let (x, width) = placed_x(pos, available);
    let (y, height) = placed_y(pos, available);
    (x, y, width, height)
}

/// Where a popup goes, in coordinates relative to its parent surface.
///
/// Two steps, and the second is the one that matters on a real desktop. First
/// the anchor and gravity say where the client *wants* it: a point on the
/// anchor rectangle, and which corner of the popup to hang off that point.
/// Then the constraint adjustment says what to do when that lands off-screen,
/// which is the ordinary case for a menu opened near an edge.
///
/// `available` is the region the popup should stay inside, in the same
/// parent-relative coordinates - the output the parent is on, less the parent's
/// own origin. `None` means nothing to constrain against, and the client's
/// first choice is used unaltered.
pub fn place(pos: &XdgPositionerState, available: Option<(i32, i32, i32, i32)>) -> (r: (
    i32,
    i32,
    i32,
    i32,
))
    ensures
        r == placement(*pos, available),
{
    let (mut x, mut y): (i32, i32) = unconstrained(pos, pos.anchor, pos.gravity);
    let (mut width, mut height): (i32, i32) = (pos.width, pos.height);

    let (ax, ay, aw, ah): (i32, i32, i32, i32) = match available {
        Some(region) => region,
        None => {
            return (x, y, width, height);
        },
    };
    let adjust = pos.constraint_adjustment;

    // Each axis is settled on its own. The protocol treats them separately, and
    // a menu that runs off the right edge should slide sideways without also
    // being dragged upwards.
    if adjust.contains(XdgPositionerConstraintAdjustment::FlipX) && !fits(x, width, ax, aw) {
        let (flipped, _): (i32, i32) = unconstrained(
            pos,
            flip_x(pos.anchor),
            flip_x_gravity(pos.gravity),
        );
        // Only taken if flipping actually helps: the protocol says an
        // adjustment that would still not fit must be discarded, so a popup
        // near neither edge is not thrown to the other side for nothing.
        if fits(flipped, width, ax, aw) {
            x = flipped;
        }
    }
    if adjust.contains(XdgPositionerConstraintAdjustment::FlipY) && !fits(y, height, ay, ah) {
        let (_, flipped): (i32, i32) = unconstrained(
            pos,
            flip_y(pos.anchor),
            flip_y_gravity(pos.gravity),
        );
        if fits(flipped, height, ay, ah) {
            y = flipped;
        }
    }
    if adjust.contains(XdgPositionerConstraintAdjustment::SlideX) && !fits(x, width, ax, aw) {
        x = slide(x, width, ax, aw);
    }
    if adjust.contains(XdgPositionerConstraintAdjustment::SlideY) && !fits(y, height, ay, ah) {
        y = slide(y, height, ay, ah);
    }
    if adjust.contains(XdgPositionerConstraintAdjustment::ResizeX) && !fits(x, width, ax, aw) {
        let (nx, nw): (i32, i32) = shrink(x, width, ax, aw);
        x = nx;
        width = nw;
    }
    if adjust.contains(XdgPositionerConstraintAdjustment::ResizeY) && !fits(y, height, ay, ah) {
        let (ny, nh): (i32, i32) = shrink(y, height, ay, ah);
        y = ny;
        height = nh;
    }
    (x, y, width, height)
}

/// Where the client's anchor and gravity put the popup, before any constraint.
fn unconstrained(
    pos: &XdgPositionerState,
    anchor: XdgPositionerAnchor,
    gravity: XdgPositionerGravity,
) -> (r: (i32, i32))
    ensures
        r == (pos.wanted_x(anchor, gravity), pos.wanted_y(anchor, gravity)),
{
    let (ar_x, ar_y, ar_w, ar_h): (i32, i32, i32, i32) = pos.anchor_rect;

    let anchor_x: i32 = match anchor {
        XdgPositionerAnchor::Left
        | XdgPositionerAnchor::TopLeft
        | XdgPositionerAnchor::BottomLeft => ar_x,
        XdgPositionerAnchor::Right
        | XdgPositionerAnchor::TopRight
        | XdgPositionerAnchor::BottomRight => saturating_sum(ar_x, ar_w),
        _ => saturating_sum(ar_x, half(ar_w)),
    };
    let anchor_y: i32 = match anchor {
        XdgPositionerAnchor::Top
        | XdgPositionerAnchor::TopLeft
        | XdgPositionerAnchor::TopRight => ar_y,
        XdgPositionerAnchor::Bottom
        | XdgPositionerAnchor::BottomLeft
        | XdgPositionerAnchor::BottomRight => saturating_sum(ar_y, ar_h),
        _ => saturating_sum(ar_y, half(ar_h)),
    };

    // Gravity names the direction the popup extends *away* from the anchor, so
    // a gravity of `left` puts the popup's right edge on the anchor point.
    let x: i32 = match gravity {
        XdgPositionerGravity::Left
        | XdgPositionerGravity::TopLeft
        | XdgPositionerGravity::BottomLeft => saturating_difference(anchor_x, pos.width),
        XdgPositionerGravity::Right
        | XdgPositionerGravity::TopRight
        | XdgPositionerGravity::BottomRight => anchor_x,
        _ => saturating_difference(anchor_x, half(pos.width)),
    };
    let y: i32 = match gravity {
        XdgPositionerGravity::Top
        | XdgPositionerGravity::TopLeft
        | XdgPositionerGravity::TopRight => saturating_difference(anchor_y, pos.height),
        XdgPositionerGravity::Bottom
        | XdgPositionerGravity::BottomLeft
        | XdgPositionerGravity::BottomRight => anchor_y,
        _ => saturating_difference(anchor_y, half(pos.height)),
    };

    (saturating_sum(x, pos.offset.0), saturating_sum(y, pos.offset.1))
}

/// Whether a span of `size` starting at `start` lies inside `[origin, origin + extent)`.
fn fits(start: i32, size: i32, origin: i32, extent: i32) -> (r: bool)
    ensures
        r == inside(start, size, origin, extent),
{
    start >= origin && saturating_sum(start, size) <= saturating_sum(origin, extent)
}

/// Move a span back inside, keeping its near edge in if it is too big to fit.
fn slide(start: i32, size: i32, origin: i32, extent: i32) -> (r: i32)
    ensures
        r == slid(start, size, origin, extent),
{
    let limit: i32 = saturating_difference(saturating_sum(origin, extent), size);
    let start: i32 = if start < limit {
        start
    } else {
        limit
    };
    // The near edge last, so a popup larger than the space is pinned to the
    // near edge rather than pushed off the near side to fit the far one.
    if start > origin {
        start
    } else {
        origin
    }
}

/// Cut a span down to what will fit.
fn shrink(start: i32, size: i32, origin: i32, extent: i32) -> (r: (i32, i32))
    ensures
        r == shrunk(start, size, origin, extent),
{
    let start: i32 = if start > origin {
        start
    } else {
        origin
    };
    let room: i32 = saturating_difference(saturating_sum(origin, extent), start);
    let size: i32 = if size < room {
        size
    } else {
        room
    };
    (
        start,
        if size > 1 {
            size
        } else {
            1
        },
    )
}

/// The anchor seen in a mirror.
pub open spec fn anchor_mirrored(anchor: XdgPositionerAnchor) -> XdgPositionerAnchor {
    match anchor {
        XdgPositionerAnchor::Left => XdgPositionerAnchor::Right,
        XdgPositionerAnchor::Right => XdgPositionerAnchor::Left,
        XdgPositionerAnchor::TopLeft => XdgPositionerAnchor::TopRight,
        XdgPositionerAnchor::TopRight => XdgPositionerAnchor::TopLeft,
        XdgPositionerAnchor::BottomLeft => XdgPositionerAnchor::BottomRight,
        XdgPositionerAnchor::BottomRight => XdgPositionerAnchor::BottomLeft,
        other => other,
    }
}

/// The anchor upside down.
pub open spec fn anchor_upended(anchor: XdgPositionerAnchor) -> XdgPositionerAnchor {
    match anchor {
        XdgPositionerAnchor::Top => XdgPositionerAnchor::Bottom,
        XdgPositionerAnchor::Bottom => XdgPositionerAnchor::Top,
        XdgPositionerAnchor::TopLeft => XdgPositionerAnchor::BottomLeft,
        XdgPositionerAnchor::BottomLeft => XdgPositionerAnchor::TopLeft,
        XdgPositionerAnchor::TopRight => XdgPositionerAnchor::BottomRight,
        XdgPositionerAnchor::BottomRight => XdgPositionerAnchor::TopRight,
        other => other,
    }
}

/// The gravity seen in a mirror.
pub open spec fn gravity_mirrored(gravity: XdgPositionerGravity) -> XdgPositionerGravity {
    match gravity {
        XdgPositionerGravity::Left => XdgPositionerGravity::Right,
        XdgPositionerGravity::Right => XdgPositionerGravity::Left,
        XdgPositionerGravity::TopLeft => XdgPositionerGravity::TopRight,
        XdgPositionerGravity::TopRight => XdgPositionerGravity::TopLeft,
        XdgPositionerGravity::BottomLeft => XdgPositionerGravity::BottomRight,
        XdgPositionerGravity::BottomRight => XdgPositionerGravity::BottomLeft,
        other => other,
    }
}

/// The gravity upside down.
pub open spec fn gravity_upended(gravity: XdgPositionerGravity) -> XdgPositionerGravity {
    match gravity {
        XdgPositionerGravity::Top => XdgPositionerGravity::Bottom,
        XdgPositionerGravity::Bottom => XdgPositionerGravity::Top,
        XdgPositionerGravity::TopLeft => XdgPositionerGravity::BottomLeft,
        XdgPositionerGravity::BottomLeft => XdgPositionerGravity::TopLeft,
        XdgPositionerGravity::TopRight => XdgPositionerGravity::BottomRight,
        XdgPositionerGravity::BottomRight => XdgPositionerGravity::TopRight,
        other => other,
    }
}

fn flip_x(anchor: XdgPositionerAnchor) -> (r: XdgPositionerAnchor)
    ensures
        r == anchor_mirrored(anchor),
{
    match anchor {
        XdgPositionerAnchor::Left => XdgPositionerAnchor::Right,
        XdgPositionerAnchor::Right => XdgPositionerAnchor::Left,
        XdgPositionerAnchor::TopLeft => XdgPositionerAnchor::TopRight,
        XdgPositionerAnchor::TopRight => XdgPositionerAnchor::TopLeft,
        XdgPositionerAnchor::BottomLeft => XdgPositionerAnchor::BottomRight,
        XdgPositionerAnchor::BottomRight => XdgPositionerAnchor::BottomLeft,
        other => other,
    }
}

fn flip_y(anchor: XdgPositionerAnchor) -> (r: XdgPositionerAnchor)
    ensures
        r == anchor_upended(anchor),
{
    match anchor {
        XdgPositionerAnchor::Top => XdgPositionerAnchor::Bottom,
        XdgPositionerAnchor::Bottom => XdgPositionerAnchor::Top,
        XdgPositionerAnchor::TopLeft => XdgPositionerAnchor::BottomLeft,
        XdgPositionerAnchor::BottomLeft => XdgPositionerAnchor::TopLeft,
        XdgPositionerAnchor::TopRight => XdgPositionerAnchor::BottomRight,
        XdgPositionerAnchor::BottomRight => XdgPositionerAnchor::TopRight,
        other => other,
    }
}

fn flip_x_gravity(gravity: XdgPositionerGravity) -> (r: XdgPositionerGravity)
    ensures
        r == gravity_mirrored(gravity),
{
    match gravity {
        XdgPositionerGravity::Left => XdgPositionerGravity::Right,
        XdgPositionerGravity::Right => XdgPositionerGravity::Left,
        XdgPositionerGravity::TopLeft => XdgPositionerGravity::TopRight,
        XdgPositionerGravity::TopRight => XdgPositionerGravity::TopLeft,
        XdgPositionerGravity::BottomLeft => XdgPositionerGravity::BottomRight,
        XdgPositionerGravity::BottomRight => XdgPositionerGravity::BottomLeft,
        other => other,
    }
}

fn flip_y_gravity(gravity: XdgPositionerGravity) -> (r: XdgPositionerGravity)
    ensures
        r == gravity_upended(gravity),
{
    match gravity {
        XdgPositionerGravity::Top => XdgPositionerGravity::Bottom,
        XdgPositionerGravity::Bottom => XdgPositionerGravity::Top,
        XdgPositionerGravity::TopLeft => XdgPositionerGravity::BottomLeft,
        XdgPositionerGravity::BottomLeft => XdgPositionerGravity::TopLeft,
        XdgPositionerGravity::TopRight => XdgPositionerGravity::BottomRight,
        XdgPositionerGravity::BottomRight => XdgPositionerGravity::TopRight,
        other => other,
    }
}

/// Flipping twice is not flipping at all.
pub proof fn law_flips_undo_themselves(anchor: XdgPositionerAnchor, gravity: XdgPositionerGravity)
    ensures
        anchor_mirrored(anchor_mirrored(anchor)) == anchor,
        anchor_upended(anchor_upended(anchor)) == anchor,
        gravity_mirrored(gravity_mirrored(gravity)) == gravity,
        gravity_upended(gravity_upended(gravity)) == gravity,
{
}

/// Where nothing may be done the popup is where the client asked, whatever the
/// screen; and so it is along an axis on which it fits.
pub proof fn law_a_popup_is_not_second_guessed(
    pos: XdgPositionerState,
    available: (i32, i32, i32, i32),
)
    ensures
        pos.constraint_adjustment == ConstraintAdjustments(0) ==> placement(pos, Some(available))
            == placement(pos, None),
        inside(
            pos.wanted_x(pos.anchor, pos.gravity),
            pos.width,
            available.0,
            available.2,
        ) ==> placed_x(pos, Some(available)) == placed_x(pos, None),
        inside(
            pos.wanted_y(pos.anchor, pos.gravity),
            pos.height,
            available.1,
            available.3,
        ) ==> placed_y(pos, Some(available)) == placed_y(pos, None),
{
    assert(0u32 & 1 == 0 && 0u32 & 2 == 0 && 0u32 & 4 == 0 && 0u32 & 8 == 0 && 0u32 & 16 == 0
        && 0u32 & 32 == 0) by (bit_vector);
}

/// Each axis is settled on its own: what happens along one depends on nothing
/// that is said about the other.
pub proof fn law_axes_are_independent(
    a: XdgPositionerState,
    b: XdgPositionerState,
    left: (i32, i32, i32, i32),
    right: (i32, i32, i32, i32),
)
    requires
        a.anchor.across() == b.anchor.across(),
        a.gravity.across() == b.gravity.across(),
        a.anchor_rect.0 == b.anchor_rect.0,
        a.anchor_rect.2 == b.anchor_rect.2,
        a.width == b.width,
        a.offset.0 == b.offset.0,
        a.allows(XdgPositionerConstraintAdjustment::FlipX) == b.allows(
            XdgPositionerConstraintAdjustment::FlipX,
        ),
        a.allows(XdgPositionerConstraintAdjustment::SlideX) == b.allows(
            XdgPositionerConstraintAdjustment::SlideX,
        ),
        a.allows(XdgPositionerConstraintAdjustment::ResizeX) == b.allows(
            XdgPositionerConstraintAdjustment::ResizeX,
        ),
        left.0 == right.0,
        left.2 == right.2,
    ensures
        placement(a, Some(left)).0 == placement(b, Some(right)).0,
        placement(a, Some(left)).2 == placement(b, Some(right)).2,
{
    assert(anchor_mirrored(a.anchor).across() == anchor_mirrored(b.anchor).across());
    assert(gravity_mirrored(a.gravity).across() == gravity_mirrored(b.gravity).across());
}

/// A popup that may slide ends up inside wherever it can fit at all, and with
/// its near edge on the screen where it cannot.
pub proof fn law_sliding_brings_it_back(start: i32, size: i32, origin: i32, extent: i32)
    requires
        i32::MIN <= origin + extent <= i32::MAX,
        size >= 0,
    ensures
        size <= extent ==> inside(slid(start, size, origin, extent), size, origin, extent),
        size > extent ==> slid(start, size, origin, extent) == origin,
{
}

/// Where the client's choice puts a popup, as distances from the anchor
/// rectangle: a popup that extends to one side of a point ends there, one that
/// extends to the other begins there, and one that extends to neither has the
/// point in its middle. The point is on the side of the rectangle that the
/// anchor names, or in its middle.
pub proof fn law_a_popup_hangs_off_its_anchor(pos: XdgPositionerState, point: (int, int))
    requires
        pos.width >= 0 && pos.height >= 0 && pos.anchor_rect.2 >= 0 && pos.anchor_rect.3 >= 0,
        // No coordinate on the way is out of range.
        -0x1000_0000 <= pos.anchor_rect.0 <= 0x1000_0000,
        -0x1000_0000 <= pos.anchor_rect.1 <= 0x1000_0000,
        pos.anchor_rect.2 <= 0x1000_0000 && pos.anchor_rect.3 <= 0x1000_0000,
        pos.width <= 0x1000_0000 && pos.height <= 0x1000_0000,
        -0x1000_0000 <= pos.offset.0 <= 0x1000_0000,
        -0x1000_0000 <= pos.offset.1 <= 0x1000_0000,
        // The point the popup hangs off.
        match pos.anchor {
            XdgPositionerAnchor::Left | XdgPositionerAnchor::TopLeft
            | XdgPositionerAnchor::BottomLeft => point.0 == pos.anchor_rect.0,
            XdgPositionerAnchor::Right | XdgPositionerAnchor::TopRight
            | XdgPositionerAnchor::BottomRight => point.0 - pos.anchor_rect.2 == pos.anchor_rect.0,
            _ => 0 <= pos.anchor_rect.2 - 2 * (point.0 - pos.anchor_rect.0) <= 1,
        },
        match pos.anchor {
            XdgPositionerAnchor::Top | XdgPositionerAnchor::TopLeft
            | XdgPositionerAnchor::TopRight => point.1 == pos.anchor_rect.1,
            XdgPositionerAnchor::Bottom | XdgPositionerAnchor::BottomLeft
            | XdgPositionerAnchor::BottomRight => point.1 - pos.anchor_rect.3 == pos.anchor_rect.1,
            _ => 0 <= pos.anchor_rect.3 - 2 * (point.1 - pos.anchor_rect.1) <= 1,
        },
    ensures
        ({
            let (x, y, width, height) = placement(pos, None);
            let left = x - pos.offset.0;
            let top = y - pos.offset.1;
            &&& width == pos.width && height == pos.height
            &&& match pos.gravity {
                XdgPositionerGravity::Left | XdgPositionerGravity::TopLeft
                | XdgPositionerGravity::BottomLeft => left + width == point.0,
                XdgPositionerGravity::Right | XdgPositionerGravity::TopRight
                | XdgPositionerGravity::BottomRight => left == point.0,
                _ => 0 <= left + width - point.0 - (point.0 - left) <= 1,
            }
            &&& match pos.gravity {
                XdgPositionerGravity::Top | XdgPositionerGravity::TopLeft
                | XdgPositionerGravity::TopRight => top + height == point.1,
                XdgPositionerGravity::Bottom | XdgPositionerGravity::BottomLeft
                | XdgPositionerGravity::BottomRight => top == point.1,
                _ => 0 <= top + height - point.1 - (point.1 - top) <= 1,
            }
        }),
{
}

/// The other end.
pub open spec fn opposite(end: End) -> End {
    match end {
        End::Near => End::Far,
        End::Far => End::Near,
        End::Middle => End::Middle,
    }
}

proof fn lemma_mirrored(anchor: End, gravity: End, start: i32, extent: i32, size: i32, offset: i32)
    requires
        0 <= size <= 0x1000_0000 && 0 <= extent <= 0x1000_0000,
        -0x1000_0000 <= start <= 0x1000_0000 && -0x1000_0000 <= offset <= 0x1000_0000,
    ensures
        -2 <= wanted(anchor, gravity, start, extent, size, offset) + wanted(
            opposite(anchor),
            opposite(gravity),
            start,
            extent,
            size,
            offset,
        ) - (2 * start + extent - size + 2 * offset) <= 2,
{
}

/// A popup that does not fit along an axis and may only be flipped is flipped if
/// it fits then, and is otherwise left where it was. Flipped, it is as far to one
/// side of the middle of the anchor rectangle as it was to the other, give or
/// take a rounding, and it keeps its size.
pub proof fn law_flipping_mirrors_at_the_anchor(
    pos: XdgPositionerState,
    available: (i32, i32, i32, i32),
)
    requires
        pos.width >= 0 && pos.anchor_rect.2 >= 0,
        -0x1000_0000 <= pos.anchor_rect.0 <= 0x1000_0000,
        pos.anchor_rect.2 <= 0x1000_0000,
        pos.width <= 0x1000_0000,
        -0x1000_0000 <= pos.offset.0 <= 0x1000_0000,
        pos.allows(XdgPositionerConstraintAdjustment::FlipX),
        !pos.allows(XdgPositionerConstraintAdjustment::SlideX),
        !pos.allows(XdgPositionerConstraintAdjustment::ResizeX),
    ensures
        ({
            let wx = placement(pos, None).0;
            let (x, _, width, _) = placement(pos, Some(available));
            &&& width == pos.width
            &&& x != wx ==> !inside(wx, width, available.0, available.2) && inside(
                x,
                width,
                available.0,
                available.2,
            ) && -2 <= wx + x - (2 * pos.anchor_rect.0 + pos.anchor_rect.2 - width + 2
                * pos.offset.0) <= 2
        }),
{
    lemma_mirrored(
        pos.anchor.across(),
        pos.gravity.across(),
        pos.anchor_rect.0,
        pos.anchor_rect.2,
        pos.width,
        pos.offset.0,
    );
    assert(anchor_mirrored(pos.anchor).across() == opposite(pos.anchor.across()));
    assert(gravity_mirrored(pos.gravity).across() == opposite(pos.gravity.across()));
}

/// The same from top to bottom.
pub proof fn law_flipping_upends_at_the_anchor(
    pos: XdgPositionerState,
    available: (i32, i32, i32, i32),
)
    requires
        pos.height >= 0 && pos.anchor_rect.3 >= 0,
        -0x1000_0000 <= pos.anchor_rect.1 <= 0x1000_0000,
        pos.anchor_rect.3 <= 0x1000_0000,
        pos.height <= 0x1000_0000,
        -0x1000_0000 <= pos.offset.1 <= 0x1000_0000,
        pos.allows(XdgPositionerConstraintAdjustment::FlipY),
        !pos.allows(XdgPositionerConstraintAdjustment::SlideY),
        !pos.allows(XdgPositionerConstraintAdjustment::ResizeY),
    ensures
        ({
            let wy = placement(pos, None).1;
            let (_, y, _, height) = placement(pos, Some(available));
            &&& height == pos.height
            &&& y != wy ==> !inside(wy, height, available.1, available.3) && inside(
                y,
                height,
                available.1,
                available.3,
            ) && -2 <= wy + y - (2 * pos.anchor_rect.1 + pos.anchor_rect.3 - height + 2
                * pos.offset.1) <= 2
        }),
{
    lemma_mirrored(
        pos.anchor.down(),
        pos.gravity.down(),
        pos.anchor_rect.1,
        pos.anchor_rect.3,
        pos.height,
        pos.offset.1,
    );
    assert(anchor_upended(pos.anchor).down() == opposite(pos.anchor.down()));
    assert(gravity_upended(pos.gravity).down() == opposite(pos.gravity.down()));
}

/// A popup that may be cut is on the screen afterwards, if any of it was to
/// begin with or may be slid there: it begins and ends there, is no larger than
/// asked for, and not nothing.
pub proof fn law_cutting_leaves_what_fits(pos: XdgPositionerState, available: (i32, i32, i32, i32))
    requires
        pos.width > 0 && pos.height > 0,
        available.2 > 0 && available.3 > 0,
        i32::MIN < available.0 + available.2 < i32::MAX,
        i32::MIN < available.1 + available.3 < i32::MAX,
    ensures
        ({
            let (wx, wy, _, _) = placement(pos, None);
            let (x, y, width, height) = placement(pos, Some(available));
            &&& pos.allows(XdgPositionerConstraintAdjustment::ResizeX) && (wx < available.0
                + available.2 || pos.allows(XdgPositionerConstraintAdjustment::SlideX))
                ==> available.0 <= x && x + width <= available.0 + available.2 && 0 < width
                <= pos.width
            &&& pos.allows(XdgPositionerConstraintAdjustment::ResizeY) && (wy < available.1
                + available.3 || pos.allows(XdgPositionerConstraintAdjustment::SlideY))
                ==> available.1 <= y && y + height <= available.1 + available.3 && 0 < height
                <= pos.height
        }),
{
}

} // verus!

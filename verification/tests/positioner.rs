//! Where a popup goes.

use way_small::positioner::{
    place, ConstraintAdjustments, XdgPositionerAnchor, XdgPositionerConstraintAdjustment,
    XdgPositionerGravity, XdgPositionerState,
};

/// A 20x20 popup hung off the bottom-left of a 10x10 anchor rect at (100, 100).
fn positioner() -> XdgPositionerState {
    XdgPositionerState {
        client_id: 1,
        width: 20,
        height: 20,
        anchor_rect: (100, 100, 10, 10),
        anchor: XdgPositionerAnchor::BottomLeft,
        gravity: XdgPositionerGravity::BottomRight,
        offset: (0, 0),
        constraint_adjustment: ConstraintAdjustments::empty(),
        reactive: false,
        parent_size: None,
    }
}

fn only(adjustment: XdgPositionerConstraintAdjustment) -> ConstraintAdjustments {
    ConstraintAdjustments::empty().with(adjustment)
}

#[test]
fn anchor_and_gravity_decide_where_it_goes() {
    // Bottom-left of the anchor rect is (100, 110); gravity bottom-right
    // extends down and right from there.
    assert_eq!(place(&positioner(), None), (100, 110, 20, 20));
}

#[test]
fn an_unconstrained_popup_is_left_where_the_client_asked() {
    // It runs off a narrow screen, but the client asked for no adjustment,
    // so the compositor does not second-guess it.
    let available = Some((0, 0, 105, 200));
    assert_eq!(place(&positioner(), available), (100, 110, 20, 20));
}

#[test]
fn sliding_brings_a_popup_back_onto_the_screen() {
    let mut pos = positioner();
    pos.constraint_adjustment = only(XdgPositionerConstraintAdjustment::SlideX);
    // 105 wide, popup is 20: the furthest left edge that fits is 85.
    assert_eq!(place(&pos, Some((0, 0, 105, 200))), (85, 110, 20, 20));
}

#[test]
fn flipping_puts_the_popup_on_the_other_side_of_its_anchor() {
    let mut pos = positioner();
    pos.constraint_adjustment = only(XdgPositionerConstraintAdjustment::FlipX);
    // Flipped, it hangs off the right edge of the anchor rect extending
    // left, which fits.
    assert_eq!(place(&pos, Some((0, 0, 115, 200))), (90, 110, 20, 20));
}

#[test]
fn a_flip_that_would_not_help_is_discarded() {
    let mut pos = positioner();
    pos.constraint_adjustment = only(XdgPositionerConstraintAdjustment::FlipX);
    // Too narrow either way round, so the popup is left where the client
    // asked rather than thrown to the other side for nothing.
    assert_eq!(place(&pos, Some((0, 0, 15, 200))), (100, 110, 20, 20));
}

#[test]
fn resizing_cuts_the_popup_down_to_what_fits() {
    let mut pos = positioner();
    pos.constraint_adjustment = only(XdgPositionerConstraintAdjustment::ResizeX);
    assert_eq!(place(&pos, Some((0, 0, 110, 200))), (100, 110, 10, 20));
}

#[test]
fn a_popup_larger_than_the_space_is_pinned_to_the_near_edge() {
    let mut pos = positioner();
    pos.constraint_adjustment = only(XdgPositionerConstraintAdjustment::SlideX);
    // Nowhere for it to fit; the near edge is the part worth showing.
    assert_eq!(place(&pos, Some((0, 0, 10, 200))).0, 0);
}

#[test]
fn the_axes_are_settled_independently() {
    let mut pos = positioner();
    pos.constraint_adjustment = only(XdgPositionerConstraintAdjustment::SlideX)
        .with(XdgPositionerConstraintAdjustment::SlideY);
    // Only x is short, so only x moves.
    let (x, y, _, _) = place(&pos, Some((0, 0, 105, 400)));
    assert_eq!((x, y), (85, 110));
}

#[test]
fn an_anchor_is_named_by_its_number() {
    assert_eq!(XdgPositionerAnchor::from_repr(0), Some(XdgPositionerAnchor::Unset));
    assert_eq!(XdgPositionerAnchor::from_repr(8), Some(XdgPositionerAnchor::BottomRight));
    assert_eq!(XdgPositionerAnchor::from_repr(9), None);
    assert_eq!(XdgPositionerGravity::from_repr(6), Some(XdgPositionerGravity::BottomLeft));
}

#[test]
fn bits_that_are_no_adjustment_are_dropped() {
    assert_eq!(ConstraintAdjustments::from_bits_truncate(0xff), ConstraintAdjustments(0x3f));
}

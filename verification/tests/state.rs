//! Compositor state: region arithmetic, where the pointer can be, and what a
//! disconnecting client leaves behind.

use way_small::objects::{region_contains, RegionOp, RegionRect};
use way_small::shared::{
    output_contains, Output, OutputGeometry, OutputId, OutputMode, OutputSubpixel,
    OutputTransform, OUTPUT_MODE_CURRENT,
};
use way_small::state::CompositorState;
use way_small::wire::{fixed_to_i32, Fd};

fn r(op: RegionOp, x: i32, y: i32, width: i32, height: i32) -> RegionRect {
    RegionRect {
        op,
        x,
        y,
        width,
        height,
    }
}

#[test]
fn empty_region_accepts_nothing() {
    assert!(!region_contains(&[], 0, 0));
    assert!(!region_contains(&[], 50, 50));
}

#[test]
fn add_bounds_are_half_open() {
    let rects = [r(RegionOp::Add, 10, 10, 20, 20)];
    assert!(region_contains(&rects, 10, 10));
    assert!(region_contains(&rects, 29, 29));
    assert!(!region_contains(&rects, 30, 30));
    assert!(!region_contains(&rects, 9, 10));
}

#[test]
fn subtract_punches_a_hole() {
    let rects = [
        r(RegionOp::Add, 0, 0, 100, 100),
        r(RegionOp::Subtract, 40, 40, 20, 20),
    ];
    assert!(region_contains(&rects, 10, 10));
    assert!(!region_contains(&rects, 45, 45));
}

#[test]
fn later_add_reinstates_subtracted_area() {
    // The case two unordered lists would get wrong.
    let rects = [
        r(RegionOp::Add, 0, 0, 100, 100),
        r(RegionOp::Subtract, 40, 40, 20, 20),
        r(RegionOp::Add, 45, 45, 5, 5),
    ];
    assert!(!region_contains(&rects, 41, 41));
    assert!(region_contains(&rects, 46, 46));
}

#[test]
fn zero_sized_rect_contains_nothing() {
    assert!(!region_contains(&[r(RegionOp::Add, 5, 5, 0, 0)], 5, 5));
}

fn output(id: u32, x: i32, y: i32, width: i32, height: i32) -> Output {
    Output {
        id: OutputId(id),
        geometry: OutputGeometry {
            x,
            y,
            physical_width: width,
            physical_height: height,
            subpixel: OutputSubpixel::NoSubpixels,
            make: String::new(),
            model: String::new(),
            transform: OutputTransform::Normal,
        },
        modes: vec![OutputMode {
            flags: OUTPUT_MODE_CURRENT,
            width,
            height,
            refresh_mhz: 60000,
        }],
        scale: 1,
        name: String::new(),
        description: String::new(),
    }
}

/// A position in the 256ths of a pixel the compositor counts in.
fn px(v: f64) -> i64 {
    (v * 256.0) as i64
}

fn at(state: &CompositorState) -> (f64, f64) {
    (state.cursor_x as f64 / 256.0, state.cursor_y as f64 / 256.0)
}

fn state_with(outputs: Vec<Output>) -> CompositorState {
    let mut state = CompositorState::new();
    state.outputs = outputs;
    state
}

#[test]
fn a_position_on_an_output_is_left_alone() {
    let mut state = state_with(vec![output(1, 0, 0, 100, 100)]);
    state.move_cursor_to(px(40.0), px(60.0));
    assert_eq!(at(&state), (40.0, 60.0));
}

#[test]
fn a_position_off_the_edge_is_pulled_back_on() {
    let mut state = state_with(vec![output(1, 0, 0, 100, 100)]);
    state.move_cursor_to(px(500.0), px(-20.0));
    // Still on a real pixel of the output, not one past its far edge.
    assert_eq!(at(&state), (99.0, 0.0));
}

#[test]
fn relative_motion_accumulates_and_stops_at_the_edge() {
    let mut state = state_with(vec![output(1, 0, 0, 100, 100)]);
    state.move_cursor_to(px(50.0), px(50.0));
    state.move_cursor_by(px(10.5), px(-5.0));
    assert_eq!(at(&state), (60.5, 45.0));

    // A mouse reports movement forever; without a constraint the pointer
    // would keep going and never come back.
    for _ in 0..100 {
        state.move_cursor_by(px(50.0), px(0.0));
    }
    assert_eq!(at(&state).0, 99.0);
}

#[test]
fn the_pointer_crosses_between_adjacent_outputs() {
    let mut state = state_with(vec![output(1, 0, 0, 100, 100), output(2, 100, 0, 100, 100)]);
    state.move_cursor_to(px(90.0), px(50.0));
    state.move_cursor_by(px(30.0), px(0.0));
    // The gap between them is not a gap: both are inside the union.
    assert_eq!(at(&state), (120.0, 50.0));
}

#[test]
fn the_pointer_cannot_sit_in_the_notch_between_mismatched_outputs() {
    // A tall output beside a short one leaves a corner that belongs to no
    // display. A bounding box would happily park the pointer there, where
    // it would be invisible and unclickable.
    let mut state = state_with(vec![output(1, 0, 0, 100, 200), output(2, 100, 0, 100, 100)]);
    state.move_cursor_to(px(150.0), px(180.0));

    let landed_on = state.outputs.iter().find(|o| {
        output_contains(o, fixed_to_i32(state.cursor_x), fixed_to_i32(state.cursor_y))
    });
    assert!(
        landed_on.is_some(),
        "cursor at {:?} is on no output",
        at(&state)
    );
    // Nearest, not directly above: the tall output's right edge is 51
    // across, while the short output's bottom edge is 81 up.
    assert_eq!(at(&state), (99.0, 180.0));
}

const CLIENT: u32 = 1;
const POOL: u32 = 100;
const BUFFER: u32 = 101;

#[test]
fn a_disconnecting_clients_pools_are_freed() {
    let mut state = CompositorState::new();
    let size = 4096;
    assert!(state.register_shm_pool(CLIENT, POOL, Fd(3), size, true));
    state.register_buffer(CLIENT, BUFFER, POOL, 0, 8, 8, 32, 0);
    assert!(state.shm_pools.contains_key((CLIENT, POOL)));

    state.remove_client_resources(CLIENT);

    // A pool is freed only once nothing references it, so its buffers have
    // to go first. Tearing down in the other order leaves the pool marked
    // dead and never collected - its mapping alive and its descriptor open
    // for the rest of the compositor's life, once per client that ever
    // connected.
    assert!(
        !state.shm_pools.contains_key((CLIENT, POOL)),
        "the pool outlived the client that owned it"
    );
    assert_eq!(state.buffers.len(), 0);
}

#[test]
fn a_pool_whose_memory_could_not_be_mapped_is_refused() {
    let mut state = CompositorState::new();
    assert!(!state.register_shm_pool(CLIENT, POOL, Fd(3), 8192, false));
}

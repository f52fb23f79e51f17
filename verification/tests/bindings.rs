//! Key bindings and what they do to the focused window.

use way_small::hits::surface_dimensions;
use way_small::keys::{
    close_focused_window, cycle_focus, match_binding, Binding, KEY_F4, KEY_LEFTALT, KEY_RIGHTALT,
    KEY_TAB,
};
use way_small::objects::{Buffer, BufferKind, ShmBuffer};
use way_small::shared::{
    Output, OutputGeometry, OutputId, OutputMode, OutputSubpixel, OutputTransform,
    OUTPUT_MODE_CURRENT,
};
use way_small::state::CompositorState;
use way_small::table::KeySet;

fn held(keys: &[u32]) -> KeySet<u32> {
    let mut set = KeySet::new();
    for key in keys {
        set.insert(*key);
    }
    set
}

fn add_client(state: &mut CompositorState, client_id: u32) {
    state.clients.create(client_id, 64);
}

fn add_toplevel(
    state: &mut CompositorState,
    client_id: u32,
    wl_surface_id: u32,
    xdg_surface_id: u32,
    toplevel_id: u32,
) {
    state.create_surface(client_id, wl_surface_id);
    state.create_xdg_surface(client_id, xdg_surface_id, wl_surface_id);
    state.create_xdg_toplevel(client_id, toplevel_id, xdg_surface_id);
}

/// A compositor with one output, so that windows have somewhere to open.
fn state_with_an_output() -> CompositorState {
    let mut state = CompositorState::new();
    state.outputs.push(Output {
        id: OutputId(1),
        geometry: OutputGeometry {
            x: 0,
            y: 0,
            physical_width: 100,
            physical_height: 100,
            subpixel: OutputSubpixel::NoSubpixels,
            make: String::new(),
            model: String::new(),
            transform: OutputTransform::Normal,
        },
        modes: vec![OutputMode {
            flags: OUTPUT_MODE_CURRENT,
            width: 100,
            height: 100,
            refresh_mhz: 60000,
        }],
        scale: 1,
        name: String::new(),
        description: String::new(),
    });
    state.sync_workspaces();
    state
}

#[test]
fn compositor_bindings_require_alt() {
    assert_eq!(match_binding(KEY_F4, &held(&[])), None);
    assert_eq!(match_binding(KEY_TAB, &held(&[])), None);
    assert_eq!(
        match_binding(KEY_F4, &held(&[KEY_LEFTALT])),
        Some(Binding::CloseWindow)
    );
    assert_eq!(
        match_binding(KEY_TAB, &held(&[KEY_RIGHTALT])),
        Some(Binding::CycleFocus)
    );
}

#[test]
fn compositor_unbound_keys_pass_through_even_with_alt() {
    // Alt+E belongs to the client, not the compositor.
    assert_eq!(match_binding(18, &held(&[KEY_LEFTALT])), None);
}

#[test]
fn compositor_buffer_scale_shrinks_the_hit_testable_area() {
    let mut state = CompositorState::new();
    add_client(&mut state, 1);
    state.create_surface(1, 10);
    state.buffers.insert(
        (1, 11),
        Buffer {
            client_id: 1,
            width: 200,
            height: 100,
            content_serial: 1,
            kind: BufferKind::Shm(ShmBuffer {
                pool_id: 0,
                offset: 0,
                stride: 800,
                format: 0,
                damage: None,
            }),
        },
    );
    state.surfaces.get_mut((1, 10)).unwrap().buffer_id = Some(11);

    assert_eq!(surface_dimensions(&state, (1, 10)), (200, 100));

    state.surfaces.get_mut((1, 10)).unwrap().buffer_scale = 2;
    assert_eq!(
        surface_dimensions(&state, (1, 10)),
        (100, 50),
        "a scale-2 buffer covers half as much surface-local area"
    );
}

#[test]
fn compositor_close_sends_xdg_toplevel_close_to_the_focused_window() {
    let mut state = CompositorState::new();
    add_client(&mut state, 1);
    add_toplevel(&mut state, 1, 10, 11, 12);
    state.focused_surface = Some((1, 10));

    close_focused_window(&mut state);

    let sent = state.clients.get(1).unwrap().take_outbox();
    let msg = sent.first().expect("expected an xdg_toplevel.close");
    assert_eq!(
        msg.object_id, 12,
        "addressed to the toplevel, not the surface"
    );
    assert_eq!(msg.op_code, 1, "xdg_toplevel.close");
}

#[test]
fn compositor_close_with_nothing_focused_is_a_no_op() {
    let mut state = CompositorState::new();
    add_client(&mut state, 1);
    add_toplevel(&mut state, 1, 10, 11, 12);
    state.focused_surface = None;

    close_focused_window(&mut state);

    assert!(state.clients.get(1).unwrap().take_outbox().is_empty());
}

#[test]
fn compositor_cycle_rotates_through_every_window() {
    let mut state = state_with_an_output();
    add_client(&mut state, 1);
    add_toplevel(&mut state, 1, 10, 11, 12);
    add_toplevel(&mut state, 1, 20, 21, 22);
    add_toplevel(&mut state, 1, 30, 31, 32);
    // create_xdg_toplevel pushes each new window on top, bottom-to-top.
    assert_eq!(
        state.workspaces.visible_stack(OutputId(1)),
        vec![(1, 10), (1, 20), (1, 30)]
    );

    cycle_focus(&mut state);
    assert_eq!(state.focused_surface, Some((1, 10)));
    assert_eq!(
        state.workspaces.visible_stack(OutputId(1)),
        vec![(1, 20), (1, 30), (1, 10)]
    );

    cycle_focus(&mut state);
    assert_eq!(state.focused_surface, Some((1, 20)));

    cycle_focus(&mut state);
    assert_eq!(state.focused_surface, Some((1, 30)));
}

#[test]
fn compositor_cycle_with_one_window_does_nothing() {
    let mut state = state_with_an_output();
    add_client(&mut state, 1);
    add_toplevel(&mut state, 1, 10, 11, 12);
    state.focused_surface = Some((1, 10));

    cycle_focus(&mut state);

    assert_eq!(state.workspaces.visible_stack(OutputId(1)), vec![(1, 10)]);
    assert_eq!(state.focused_surface, Some((1, 10)));
}

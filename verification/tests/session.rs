//! Whole sessions: what clients ask for over the wire, what the backend
//! reports, and what comes of the two together.

use way_small::client::{DISPLAY_DELETE_ID, DISPLAY_ERROR, DISPLAY_OBJECT_ID};
use way_small::compositor::{
    handle_backend, handle_socket, housekeep, BackendMessage, WaylandSocketMessage,
};
use way_small::dmabuf::{
    DmabufFormat, DmabufProbe, DRM_FORMAT_MOD_INVALID, DRM_FORMAT_XRGB8888,
};
use way_small::keys::{cycle_focus, Modifiers, KEY_ESC, KEY_LEFTALT, KEY_TAB};
use way_small::pacer::FramePacer;
use way_small::pointer::Scroll;
use way_small::protocol::{memory_to_map, plane_to_measure, Outside, ERROR_INVALID_METHOD};
use way_small::protocol::{
    wl_buffer, wl_callback, wl_compositor, wl_data_device, wl_data_device_manager, wl_data_offer,
    wl_data_source, wl_display, wl_fixes, wl_keyboard, wl_output, wl_pointer, wl_registry, wl_seat, wl_shm,
    wl_shm_pool, wl_subcompositor, wl_subsurface, wl_surface, wl_touch, wp_presentation,
    wp_presentation_feedback, wp_viewport, wp_viewporter, xdg_popup, xdg_positioner, xdg_surface,
    xdg_system_bell, xdg_toplevel, xdg_wm_base, zwp_linux_buffer_params, zwp_linux_dmabuf,
};
use way_small::scene::release;
use way_small::shared::{
    ButtonState, KeyState, MouseButton, Output, OutputGeometry, OutputId, OutputMode,
    OutputSubpixel, OutputTransform, PresentedAt, Scene, ScrollSource, TextureId,
    OUTPUT_MODE_CURRENT,
};
use way_small::state::{CompositorState, Effect};
use way_small::wire::{
    ArgReader, ArgWriter, Fd, WaylandProtocolMessage, WaylandProtocolMessageWithClientInfo,
};

const OUTPUT: OutputId = OutputId(1);

// What every client of these tests binds.
const REGISTRY: u32 = 2;
const COMPOSITOR: u32 = 3;
const SUBCOMPOSITOR: u32 = 4;
const DATA_DEVICES: u32 = 5;
const SHM: u32 = 6;
const SEAT: u32 = 7;
const WM_BASE: u32 = 8;
const BELL: u32 = 9;
const VIEWPORTER: u32 = 10;
const PRESENTATION: u32 = 11;

// What a window is made of.
const SURFACE: u32 = 20;
const XDG_SURFACE: u32 = 21;
const TOPLEVEL: u32 = 22;
const POOL: u32 = 23;
const BUFFER: u32 = 24;

fn args() -> ArgWriter {
    ArgWriter::new()
}

fn output(id: OutputId, x: i32) -> Output {
    Output {
        id,
        name: String::from("screen"),
        description: String::from("a screen"),
        geometry: OutputGeometry {
            x,
            y: 0,
            physical_width: 800,
            physical_height: 600,
            subpixel: OutputSubpixel::Unknown,
            make: String::from("maker"),
            model: String::from("model"),
            transform: OutputTransform::Normal,
        },
        modes: vec![OutputMode {
            flags: OUTPUT_MODE_CURRENT,
            width: 800,
            height: 600,
            refresh_mhz: 60000,
        }],
        scale: 1,
    }
}

struct Session {
    state: CompositorState,
    pacer: FramePacer,
    outside: Outside,
    next_fd: u32,
}

impl Session {
    /// One output, a full seat, and a client that has bound everything.
    fn new() -> Self {
        let mut session = Session {
            state: CompositorState::new(),
            pacer: FramePacer::new(),
            outside: Outside { mapped: true, plane_size: -1, backend_ready: true },
            next_fd: 100,
        };
        session.report(BackendMessage::SeatCapabilities {
            pointer: true,
            keyboard: true,
            touch: true,
        });
        session.report(BackendMessage::OutputInfo { outputs: vec![output(OUTPUT, 0)] });
        session.connect(1);
        session
    }

    fn connect(&mut self, client_id: u32) {
        handle_socket(&mut self.state, WaylandSocketMessage::NewClient { client_id, room: 1000 });
        self.ask(client_id, DISPLAY_OBJECT_ID, wl_display::GET_REGISTRY, args().u32(REGISTRY));
        for name in 0..9 {
            self.ask(
                client_id,
                REGISTRY,
                wl_registry::BIND,
                args().u32(name).string("any").u32(100).u32(COMPOSITOR + name),
            );
        }
        self.told(client_id);
    }

    fn report(&mut self, message: BackendMessage) -> bool {
        handle_backend(&mut self.state, &mut self.pacer, 7, message)
    }

    fn ask(&mut self, client_id: u32, object_id: u32, op_code: u16, args: ArgWriter) {
        let request = WaylandProtocolMessageWithClientInfo {
            client_id,
            message: WaylandProtocolMessage {
                object_id,
                op_code,
                args: args.build(),
                fds: Vec::new(),
            },
        };
        let outside = self.outside;
        handle_socket(&mut self.state, WaylandSocketMessage::Message { request, outside });
    }

    fn ask_with_fd(&mut self, client_id: u32, object_id: u32, op_code: u16, args: ArgWriter) -> Fd {
        let fd = Fd(self.next_fd);
        self.next_fd += 1;
        handle_socket(
            &mut self.state,
            WaylandSocketMessage::Descriptors { client_id, fds: vec![fd] },
        );
        self.ask(client_id, object_id, op_code, args);
        fd
    }

    /// What a client has been told since it was last asked.
    fn told(&mut self, client_id: u32) -> Vec<WaylandProtocolMessage> {
        self.state.clients.get(client_id).unwrap().take_outbox()
    }

    /// What a client has been told by one object.
    fn told_by(&mut self, client_id: u32, object_id: u32) -> Vec<(u16, Vec<u32>)> {
        self.told(client_id)
            .iter()
            .filter(|m| m.object_id == object_id)
            .map(|m| (m.op_code, words(&m.args)))
            .collect()
    }

    /// The error a client has been sent: the object and the code.
    fn error(&mut self, client_id: u32) -> Option<(u32, u32)> {
        let told = self.told(client_id);
        let m = told
            .iter()
            .find(|m| m.object_id == DISPLAY_OBJECT_ID && m.op_code == DISPLAY_ERROR)?;
        assert!(self.state.clients.get(client_id).unwrap().cancelled);
        let said = words(&m.args);
        Some((said[0], said[1]))
    }

    /// Put a window of a size on the screen.
    fn open_window(&mut self, client_id: u32, width: i32, height: i32) {
        self.ask(client_id, COMPOSITOR, wl_compositor::CREATE_SURFACE, args().u32(SURFACE));
        self.ask(
            client_id,
            WM_BASE,
            xdg_wm_base::GET_XDG_SURFACE,
            args().u32(XDG_SURFACE).u32(SURFACE),
        );
        self.ask(client_id, XDG_SURFACE, xdg_surface::GET_TOPLEVEL, args().u32(TOPLEVEL));
        self.ask(client_id, SURFACE, wl_surface::COMMIT, args());
        self.buffer(client_id, POOL, BUFFER, width, height);
        self.show(client_id, BUFFER);
    }

    /// Make a buffer in a pool of its own.
    fn buffer(&mut self, client_id: u32, pool: u32, buffer: u32, width: i32, height: i32) -> Fd {
        let fd = self.ask_with_fd(
            client_id,
            SHM,
            wl_shm::CREATE_POOL,
            args().u32(pool).i32(width * height * 4),
        );
        self.ask(
            client_id,
            pool,
            wl_shm_pool::CREATE_BUFFER,
            args().u32(buffer).i32(0).i32(width).i32(height).i32(width * 4).u32(0),
        );
        fd
    }

    /// Show a buffer in the window.
    fn show(&mut self, client_id: u32, buffer: u32) {
        self.ask(client_id, SURFACE, wl_surface::ATTACH, args().u32(buffer).i32(0).i32(0));
        self.ask(
            client_id,
            SURFACE,
            wl_surface::DAMAGE_BUFFER,
            args().i32(0).i32(0).i32(i32::MAX).i32(i32::MAX),
        );
        self.ask(client_id, SURFACE, wl_surface::COMMIT, args());
    }

    /// Ask for a frame on an output, and take the one there is.
    fn frame(&mut self) -> Option<Vec<Scene>> {
        self.report(BackendMessage::FrameRequested { output_id: OUTPUT });
        let publication = self.pacer.publish(&mut self.state)?;
        for scene in &publication.replaced {
            release(&mut self.state, scene);
        }
        Some(publication.frame)
    }

    fn presented(&mut self) {
        self.report(BackendMessage::FramePresented {
            output_id: OUTPUT,
            presented_at: PresentedAt { tv_sec: 5, tv_nsec: 6 },
        });
    }

    fn point(&mut self, x: i64, y: i64) {
        self.report(BackendMessage::MouseMovedTo { x: x * 256, y: y * 256 });
    }

    fn press(&mut self, button_state: ButtonState) {
        self.report(BackendMessage::MouseButton { button: MouseButton::Left, button_state });
    }

    fn key(&mut self, evdev: u32, key_state: KeyState) {
        self.report(BackendMessage::KeyInput {
            keycode: evdev + 8,
            key_state,
            modifiers: Modifiers { depressed: 1, latched: 2, locked: 3, group: 4 },
        });
    }
}

fn words(bytes: &[u8]) -> Vec<u32> {
    let mut reader = ArgReader::new(bytes);
    let mut r = Vec::new();
    while let Some(word) = reader.u32() {
        r.push(word);
    }
    r
}

/// The elements of a frame that show a buffer, as where they are shown.
fn drawn(frame: &[Scene], client_id: u32, buffer: u32) -> Vec<(i32, i32, i32, i32)> {
    frame
        .iter()
        .flat_map(|scene| scene.elements.iter())
        .filter(|e| e.texture.id == TextureId::Buffer(client_id, buffer))
        .map(|e| e.dst)
        .collect()
}

#[test]
fn a_new_client_is_told_of_every_global() {
    let mut session = Session::new();
    handle_socket(&mut session.state, WaylandSocketMessage::NewClient { client_id: 2, room: 100 });
    session.ask(2, DISPLAY_OBJECT_ID, wl_display::GET_REGISTRY, args().u32(REGISTRY));

    let told = session.told(2);
    let names: Vec<String> = told
        .iter()
        .filter(|m| m.object_id == REGISTRY && m.op_code == wl_registry::GLOBAL)
        .map(|m| {
            let mut reader = ArgReader::new(&m.args);
            reader.u32();
            reader.string().unwrap()
        })
        .collect();
    assert_eq!(names[0], "wl_compositor");
    assert_eq!(names[8], "wp_presentation");
    assert_eq!(names[9], "wl_output");
    assert_eq!(names.len(), 10);
}

#[test]
fn a_sync_is_answered_and_its_id_given_back() {
    let mut session = Session::new();
    session.ask(1, DISPLAY_OBJECT_ID, wl_display::SYNC, args().u32(50));

    let told = session.told(1);
    assert_eq!((told[0].object_id, told[0].op_code), (50, wl_callback::DONE));
    assert_eq!((told[1].object_id, told[1].op_code), (DISPLAY_OBJECT_ID, DISPLAY_DELETE_ID));
    assert_eq!(words(&told[1].args), vec![50]);
    assert_eq!(told.len(), 2);
}

#[test]
fn a_window_is_drawn_once_it_has_committed_a_buffer() {
    let mut session = Session::new();
    session.ask(1, COMPOSITOR, wl_compositor::CREATE_SURFACE, args().u32(SURFACE));
    session.buffer(1, POOL, BUFFER, 4, 2);
    session.ask(1, SURFACE, wl_surface::ATTACH, args().u32(BUFFER).i32(0).i32(0));
    assert_eq!(
        session.state.surfaces.get((1, SURFACE)).unwrap().buffer_id,
        None,
        "nothing shows before a commit"
    );

    let mut session = Session::new();
    session.open_window(1, 4, 2);
    let frame = session.frame().expect("a new window is something to draw");
    let shown = drawn(&frame, 1, BUFFER);
    assert_eq!(shown.len(), 1);
    assert_eq!((shown[0].2, shown[0].3), (4, 2));
}

#[test]
fn a_window_is_configured_before_it_is_drawn() {
    let mut session = Session::new();
    session.ask(1, COMPOSITOR, wl_compositor::CREATE_SURFACE, args().u32(SURFACE));
    session.ask(
        1,
        WM_BASE,
        xdg_wm_base::GET_XDG_SURFACE,
        args().u32(XDG_SURFACE).u32(SURFACE),
    );
    session.ask(1, XDG_SURFACE, xdg_surface::GET_TOPLEVEL, args().u32(TOPLEVEL));
    session.ask(1, SURFACE, wl_surface::COMMIT, args());

    let told = session.told(1);
    assert!(told
        .iter()
        .any(|m| m.object_id == TOPLEVEL && m.op_code == xdg_toplevel::CONFIGURE));
    assert!(told
        .iter()
        .any(|m| m.object_id == XDG_SURFACE && m.op_code == xdg_surface::CONFIGURE));
}

#[test]
fn a_frame_is_told_of_once_it_has_been_presented() {
    let mut session = Session::new();
    session.open_window(1, 4, 2);
    housekeep(&mut session.state, &mut session.pacer, 6);
    session.ask(1, SURFACE, wl_surface::FRAME, args().u32(60));
    session.ask(1, PRESENTATION, wp_presentation::FEEDBACK, args().u32(SURFACE).u32(61));
    session.ask(1, SURFACE, wl_surface::COMMIT, args());
    session.frame().unwrap();
    session.told(1);

    session.presented();
    let told = session.told(1);
    let of = |object: u32| -> Vec<(u16, Vec<u32>)> {
        told.iter()
            .filter(|m| m.object_id == object)
            .map(|m| (m.op_code, words(&m.args)))
            .collect()
    };
    assert_eq!(of(60), vec![(wl_callback::DONE, vec![7])], "with the time it was presented at");
    let feedback = of(61);
    assert_eq!(feedback.last().unwrap().0, wp_presentation_feedback::PRESENTED);
    assert_eq!(&feedback.last().unwrap().1[..3], &[0, 5, 6], "seconds in two halves, nanoseconds");

    session.presented();
    assert!(session.told_by(1, 60).is_empty(), "a callback is called once");
}

#[test]
fn a_replaced_buffer_is_released_after_the_frame_that_read_it_has_gone() {
    let mut session = Session::new();
    session.open_window(1, 4, 2);
    let first = session.frame().unwrap();
    assert_eq!(drawn(&first, 1, BUFFER).len(), 1);

    session.buffer(1, 33, 34, 4, 2);
    session.show(1, 34);
    housekeep(&mut session.state, &mut session.pacer, 8);
    assert!(session.told_by(1, BUFFER).is_empty(), "the frame on screen is still reading it");

    session.frame().unwrap();
    session.presented();
    housekeep(&mut session.state, &mut session.pacer, 9);
    assert_eq!(session.told_by(1, BUFFER), vec![(wl_buffer::RELEASE, vec![])]);
}

#[test]
fn nothing_is_composed_unless_something_changed() {
    let mut session = Session::new();
    session.open_window(1, 4, 2);
    assert!(session.frame().is_some());
    assert!(session.frame().is_none(), "the request stands, but nothing has changed");
    session.show(1, BUFFER);
    assert!(session.pacer.publish(&mut session.state).is_some(), "and is served when it has");
}

#[test]
fn a_client_that_has_gone_leaves_nothing_behind() {
    let mut session = Session::new();
    session.open_window(1, 4, 2);
    session.connect(2);
    session.open_window(2, 8, 8);
    let fd = session.state.shm_pools.get((1, POOL)).unwrap().fd;

    handle_socket(&mut session.state, WaylandSocketMessage::ClientDisconnected { client_id: 1 });

    assert!(!session.state.clients.contains(1));
    assert!(session.state.surfaces.get((1, SURFACE)).is_none());
    assert!(session.state.xdg_toplevels.get((1, TOPLEVEL)).is_none());
    assert!(session.state.shm_pools.get((1, POOL)).is_none());
    assert!(session
        .state
        .effects
        .iter()
        .any(|e| matches!(e, Effect::Close(closed) if *closed == fd)));
    assert!(session.state.surfaces.get((2, SURFACE)).is_some(), "and takes nothing along");
    let frame = session.frame().unwrap();
    assert!(drawn(&frame, 1, BUFFER).is_empty());
    assert_eq!(drawn(&frame, 2, BUFFER).len(), 1);
}

#[test]
fn what_the_compositor_is_told_to_map_and_measure_is_what_a_request_names() {
    let mut session = Session::new();
    handle_socket(
        &mut session.state,
        WaylandSocketMessage::Descriptors { client_id: 1, fds: vec![Fd(9)] },
    );
    let request = |object_id: u32, op_code: u16, args: ArgWriter| {
        WaylandProtocolMessageWithClientInfo {
            client_id: 1,
            message: WaylandProtocolMessage {
                object_id,
                op_code,
                args: args.build(),
                fds: Vec::new(),
            },
        }
    };
    let create = request(SHM, wl_shm::CREATE_POOL, args().u32(POOL).i32(64));
    assert_eq!(memory_to_map(&session.state, &create), Some((Fd(9), 64)));
    assert_eq!(plane_to_measure(&session.state, &create), None);
    let empty = request(SHM, wl_shm::CREATE_POOL, args().u32(POOL).i32(0));
    assert_eq!(memory_to_map(&session.state, &empty), None);
}

#[test]
fn a_pool_of_no_size_or_no_memory_is_refused() {
    let mut session = Session::new();
    session.ask_with_fd(1, SHM, wl_shm::CREATE_POOL, args().u32(POOL).i32(0));
    assert_eq!(session.error(1), Some((SHM, 0)));

    let mut session = Session::new();
    session.outside.mapped = false;
    session.ask_with_fd(1, SHM, wl_shm::CREATE_POOL, args().u32(POOL).i32(16));
    assert_eq!(session.error(1), Some((SHM, wl_shm::ERROR_INVALID_FD)));

    let mut session = Session::new();
    session.ask(1, SHM, wl_shm::CREATE_POOL, args().u32(POOL).i32(16));
    assert!(session.error(1).is_some(), "a request that comes without its descriptor");
}

#[test]
fn requests_of_no_object_disconnect() {
    let mut session = Session::new();
    session.ask(1, 999, 0, args());
    assert_eq!(session.error(1), Some((999, 0)));
    session.ask(7, 1, 0, args());
    assert!(!session.state.clients.contains(7), "nobody is not heard");
}

#[test]
fn an_unknown_global_cannot_be_bound() {
    let mut session = Session::new();
    session.ask(
        1,
        REGISTRY,
        wl_registry::BIND,
        args().u32(77).string("wl_nothing").u32(1).u32(90),
    );
    assert_eq!(session.error(1), Some((REGISTRY, 0)));
}

#[test]
fn a_surface_cannot_be_its_own_subsurface() {
    let mut session = Session::new();
    session.ask(1, COMPOSITOR, wl_compositor::CREATE_SURFACE, args().u32(SURFACE));
    session.ask(
        1,
        SUBCOMPOSITOR,
        wl_subcompositor::GET_SUBSURFACE,
        args().u32(70).u32(SURFACE).u32(SURFACE),
    );
    assert_eq!(session.error(1), Some((SUBCOMPOSITOR, wl_subcompositor::ERROR_BAD_PARENT)));
}

#[test]
fn subsurfaces_cannot_go_round_in_a_circle() {
    let mut session = Session::new();
    for id in [30, 31, 32] {
        session.ask(1, COMPOSITOR, wl_compositor::CREATE_SURFACE, args().u32(id));
    }
    let parent = |session: &mut Session, id: u32, child: u32, of: u32| {
        session.ask(
            1,
            SUBCOMPOSITOR,
            wl_subcompositor::GET_SUBSURFACE,
            args().u32(id).u32(child).u32(of),
        );
    };
    parent(&mut session, 40, 31, 30);
    parent(&mut session, 41, 32, 31);
    assert_eq!(session.error(1), None);
    parent(&mut session, 42, 30, 32);
    assert_eq!(session.error(1), Some((SUBCOMPOSITOR, wl_subcompositor::ERROR_BAD_PARENT)));
}

#[test]
fn a_buffer_scale_is_at_least_one() {
    let mut session = Session::new();
    session.ask(1, COMPOSITOR, wl_compositor::CREATE_SURFACE, args().u32(SURFACE));
    session.ask(1, SURFACE, wl_surface::SET_BUFFER_SCALE, args().i32(0));
    assert_eq!(session.error(1), Some((SURFACE, wl_surface::ERROR_INVALID_SCALE)));
}

#[test]
fn a_surface_has_one_viewport_and_sane_values_in_it() {
    let mut session = Session::new();
    session.ask(1, COMPOSITOR, wl_compositor::CREATE_SURFACE, args().u32(SURFACE));
    session.ask(1, VIEWPORTER, wp_viewporter::GET_VIEWPORT, args().u32(70).u32(SURFACE));
    assert_eq!(session.error(1), None);
    session.ask(1, VIEWPORTER, wp_viewporter::GET_VIEWPORT, args().u32(71).u32(SURFACE));
    assert_eq!(session.error(1), Some((VIEWPORTER, wp_viewporter::ERROR_VIEWPORT_EXISTS)));

    let mut session = Session::new();
    session.ask(1, COMPOSITOR, wl_compositor::CREATE_SURFACE, args().u32(SURFACE));
    session.ask(1, VIEWPORTER, wp_viewporter::GET_VIEWPORT, args().u32(70).u32(SURFACE));
    session.ask(1, 70, wp_viewport::SET_DESTINATION, args().i32(0).i32(5));
    assert_eq!(session.error(1), Some((70, wp_viewport::ERROR_BAD_VALUE)));
}

#[test]
fn a_window_has_no_negative_limits() {
    let mut session = Session::new();
    session.open_window(1, 4, 2);
    session.told(1);
    session.ask(1, TOPLEVEL, xdg_toplevel::SET_MIN_SIZE, args().i32(-1).i32(5));
    assert_eq!(session.error(1), Some((TOPLEVEL, xdg_toplevel::ERROR_INVALID_SIZE)));
}

#[test]
fn a_source_offers_only_actions_there_are_and_is_used_once() {
    let mut session = Session::new();
    session.ask(1, DATA_DEVICES, wl_data_device_manager::CREATE_DATA_SOURCE, args().u32(80));
    session.ask(1, 80, wl_data_source::SET_ACTIONS, args().u32(8));
    assert_eq!(session.error(1), Some((80, wl_data_source::ERROR_INVALID_ACTION_MASK)));
}

#[test]
fn a_serial_nobody_was_sent_sets_no_selection() {
    let mut session = Session::new();
    session.ask(1, DATA_DEVICES, wl_data_device_manager::CREATE_DATA_SOURCE, args().u32(80));
    session.ask(1, DATA_DEVICES, wl_data_device_manager::GET_DATA_DEVICE, args().u32(81).u32(SEAT));
    session.ask(1, 81, wl_data_device::SET_SELECTION, args().u32(80).u32(4242));
    assert_eq!(session.state.selection, None);
    assert_eq!(session.error(1), None);
}

#[test]
fn the_clipboard_is_offered_to_whoever_has_the_focus() {
    let mut session = Session::new();
    session.open_window(1, 4, 2);
    session.ask(1, SEAT, wl_seat::GET_KEYBOARD, args().u32(85));
    session.ask(1, DATA_DEVICES, wl_data_device_manager::CREATE_DATA_SOURCE, args().u32(80));
    session.ask(1, 80, wl_data_source::OFFER, args().string("text/plain"));
    session.ask(1, DATA_DEVICES, wl_data_device_manager::GET_DATA_DEVICE, args().u32(81).u32(SEAT));
    session.key(30, KeyState::Pressed);
    let serial = session
        .told_by(1, 85)
        .iter()
        .find(|(op, _)| *op == wl_keyboard::KEY)
        .expect("the focused client hears of the key")
        .1[0];

    session.ask(1, 81, wl_data_device::SET_SELECTION, args().u32(80).u32(serial));
    assert_eq!(session.state.selection, Some((1, 80)));
    let told = session.told_by(1, 81);
    assert_eq!(told[0].0, wl_data_device::DATA_OFFER);
    assert_eq!(told.last().unwrap().0, wl_data_device::SELECTION);
    assert_eq!(told.last().unwrap().1, told[0].1, "the offer that was just made");
}

#[test]
fn keys_go_to_the_focused_client_with_the_modifiers_after_them() {
    let mut session = Session::new();
    session.open_window(1, 4, 2);
    session.ask(1, SEAT, wl_seat::GET_KEYBOARD, args().u32(85));
    session.told(1);

    session.key(30, KeyState::Pressed);
    let told = session.told_by(1, 85);
    assert_eq!(told[0].0, wl_keyboard::KEY);
    assert_eq!(&told[0].1[1..], &[7, 30, 1]);
    assert_eq!(told[1].0, wl_keyboard::MODIFIERS);
    assert_eq!(&told[1].1[1..], &[1, 2, 3, 4]);
    assert_eq!(told.len(), 2);
}

#[test]
fn a_bound_key_reaches_no_client_and_neither_does_its_release() {
    let mut session = Session::new();
    session.open_window(1, 4, 2);
    session.ask(1, SEAT, wl_seat::GET_KEYBOARD, args().u32(85));
    session.key(KEY_LEFTALT, KeyState::Pressed);
    session.told(1);

    session.key(KEY_TAB, KeyState::Pressed);
    session.key(KEY_TAB, KeyState::Released);
    assert!(session.told_by(1, 85).iter().all(|(op, _)| *op != wl_keyboard::KEY));
    session.key(KEY_LEFTALT, KeyState::Released);
    assert_eq!(session.told_by(1, 85)[0].0, wl_keyboard::KEY);
    session.key(KEY_ESC, KeyState::Pressed);
    assert_eq!(session.told_by(1, 85)[0].0, wl_keyboard::KEY, "only a drag takes Escape");
}

#[test]
fn the_pointer_is_told_where_in_a_window_it_is() {
    let mut session = Session::new();
    session.open_window(1, 400, 200);
    session.ask(1, SEAT, wl_seat::GET_POINTER, args().u32(86));
    let frame = session.frame().unwrap();
    let (x, y, _, _) = drawn(&frame, 1, BUFFER)[0];
    session.told(1);

    session.point(i64::from(x) + 10, i64::from(y) + 20);
    let told = session.told_by(1, 86);
    assert_eq!(told[0].0, wl_pointer::ENTER);
    assert_eq!(&told[0].1[1..], &[SURFACE, 10 * 256, 20 * 256]);

    session.point(i64::from(x) + 11, i64::from(y) + 20);
    let told = session.told_by(1, 86);
    assert_eq!(told[0], (wl_pointer::MOTION, vec![7, 11 * 256, 20 * 256]));

    session.press(ButtonState::Pressed);
    let told = session.told_by(1, 86);
    let button = told.iter().find(|(op, _)| *op == wl_pointer::BUTTON).unwrap();
    assert_eq!(&button.1[1..], &[7, 0x110, 1]);

    session.point(0, 599);
    assert!(session.told_by(1, 86).iter().any(|(op, _)| *op == wl_pointer::LEAVE));
}

#[test]
fn a_wheel_scrolls_ten_units_a_line() {
    let mut session = Session::new();
    session.open_window(1, 400, 200);
    session.ask(1, SEAT, wl_seat::GET_POINTER, args().u32(86));
    let frame = session.frame().unwrap();
    let (x, y, _, _) = drawn(&frame, 1, BUFFER)[0];
    session.point(i64::from(x) + 10, i64::from(y) + 20);
    session.told(1);

    session.report(BackendMessage::MouseScroll {
        scroll: Scroll {
            dx: 0,
            dy: 256,
            source: ScrollSource::Wheel,
            v120_x: 0,
            v120_y: 120,
        },
    });
    let told = session.told_by(1, 86);
    let axis = told.iter().find(|(op, _)| *op == wl_pointer::AXIS).unwrap();
    assert_eq!(axis.1[1], 0, "the vertical axis");
    assert_eq!(axis.1[2], 10 * 256);
    assert_eq!(told.last().unwrap().0, wl_pointer::FRAME);
}

#[test]
fn a_finger_stays_with_the_surface_it_landed_on() {
    let mut session = Session::new();
    session.open_window(1, 400, 200);
    session.ask(1, SEAT, wl_seat::GET_TOUCH, args().u32(87));
    let frame = session.frame().unwrap();
    let (x, y, _, _) = drawn(&frame, 1, BUFFER)[0];
    let (x, y) = (i64::from(x) * 256, i64::from(y) * 256);
    session.told(1);

    session.report(BackendMessage::TouchDown { id: 0, x: x + 256, y: y + 512 });
    let told = session.told_by(1, 87);
    assert_eq!(told[0].0, wl_touch::DOWN);
    assert_eq!(&told[0].1[1..], &[7, SURFACE, 0, 256, 512]);

    session.report(BackendMessage::TouchMotion { id: 0, x: x + 5000 * 256, y });
    let told = session.told_by(1, 87);
    assert_eq!(told[0].0, wl_touch::MOTION, "though it is nowhere near any more");

    session.report(BackendMessage::TouchUp { id: 0 });
    assert_eq!(session.told_by(1, 87)[0].0, wl_touch::UP);
    session.report(BackendMessage::TouchUp { id: 0 });
    assert!(session.told_by(1, 87).is_empty(), "it is lifted once");
}

#[test]
fn outputs_come_and_go() {
    let mut session = Session::new();
    session.told(1);
    session.report(BackendMessage::OutputInfo {
        outputs: vec![output(OUTPUT, 0), output(OutputId(2), 800)],
    });
    let told = session.told_by(1, REGISTRY);
    assert_eq!(told[0].0, wl_registry::GLOBAL);
    let name = told[0].1[0];

    session.ask(1, REGISTRY, wl_registry::BIND, args().u32(name).string("wl_output").u32(4).u32(95));
    let told = session.told_by(1, 95);
    assert_eq!(told[0].0, wl_output::GEOMETRY);
    assert_eq!(told[0].1[0], 800);
    assert_eq!(told.last().unwrap().0, wl_output::DONE);

    session.report(BackendMessage::OutputInfo { outputs: vec![output(OUTPUT, 0)] });
    assert_eq!(session.told_by(1, REGISTRY), vec![(wl_registry::GLOBAL_REMOVE, vec![name])]);
}

#[test]
fn a_resized_output_is_told_to_everyone_who_bound_it() {
    let mut session = Session::new();
    let name = *session.state.output_global_names.get(OUTPUT).unwrap();
    session.ask(1, REGISTRY, wl_registry::BIND, args().u32(name).string("wl_output").u32(4).u32(95));
    session.told(1);

    session.report(BackendMessage::Resized { output_id: OUTPUT, width: 640, height: 480 });
    let told = session.told_by(1, 95);
    assert_eq!(told[0].0, wl_output::MODE);
    assert_eq!(&told[0].1[1..3], &[640, 480]);
    assert_eq!(session.state.outputs[0].geometry.physical_width, 640);
}

#[test]
fn the_bell_flashes_the_screen_for_a_while() {
    let mut session = Session::new();
    session.ask(1, BELL, xdg_system_bell::RING, args().u32(0));
    assert!(!session.state.bells.keys().is_empty());
    for tick in 0..100 {
        housekeep(&mut session.state, &mut session.pacer, tick);
    }
    assert!(session.state.bells.keys().is_empty());
}

#[test]
fn the_backend_closing_ends_it() {
    let mut session = Session::new();
    assert!(session.report(BackendMessage::FocusIn));
    assert!(!session.report(BackendMessage::Closed));
}

/// A client that has bound dma-bufs as 96 and begun to describe one as 97.
fn describing_a_dmabuf() -> Session {
    let mut session = Session::new();
    session.report(BackendMessage::DmabufSupport {
        formats: vec![DmabufFormat { fourcc: DRM_FORMAT_XRGB8888, modifiers: vec![0] }],
        probe: DmabufProbe::Passed,
    });
    let name = session.state.dmabuf_global_name.unwrap();
    session.ask(
        1,
        REGISTRY,
        wl_registry::BIND,
        args().u32(name).string("zwp_linux_dmabuf_v1").u32(3).u32(96),
    );
    session.ask(1, 96, zwp_linux_dmabuf::CREATE_PARAMS, args().u32(97));
    session.told(1);
    session
}

fn add_plane(session: &mut Session, index: u32, modifier: u64) -> Fd {
    session.ask_with_fd(
        1,
        97,
        zwp_linux_buffer_params::ADD,
        args()
            .u32(index)
            .u32(0)
            .u32(64)
            .u32((modifier >> 32) as u32)
            .u32(modifier as u32),
    )
}

fn create(session: &mut Session, width: i32, height: i32, format: u32) {
    session.ask(
        1,
        97,
        zwp_linux_buffer_params::CREATE,
        args().i32(width).i32(height).u32(format).u32(0),
    );
}

#[test]
fn a_described_dmabuf_is_imported_and_then_handed_over() {
    let mut session = describing_a_dmabuf();
    let fd = add_plane(&mut session, 0, 0);
    create(&mut session, 16, 16, DRM_FORMAT_XRGB8888);
    let token = session
        .state
        .effects
        .iter()
        .find_map(|e| match e {
            Effect::ImportDmabuf { token, image } => {
                assert_eq!((image.width, image.height, image.modifier), (16, 16, 0));
                assert_eq!(image.planes[0].fd, fd);
                Some(*token)
            }
            Effect::Close(_) => None,
        })
        .expect("the backend is asked");
    assert!(session.told_by(1, 97).is_empty(), "nothing is said before it has answered");

    session.report(BackendMessage::DmabufImportResult { token, imported: true });
    let told = session.told_by(1, 97);
    assert_eq!(told[0].0, zwp_linux_buffer_params::CREATED);
    let id = told[0].1[0];
    assert!(session.state.buffers.get((1, id)).is_some());

    session.report(BackendMessage::DmabufImportResult { token, imported: true });
    assert!(session.told_by(1, 97).is_empty(), "one answer is enough");
}

#[test]
fn a_dmabuf_the_driver_refuses_is_failed_and_closed_with_its_description() {
    let mut session = describing_a_dmabuf();
    let fd = add_plane(&mut session, 0, 0);
    create(&mut session, 16, 16, DRM_FORMAT_XRGB8888);
    let token = session.state.pending_dmabuf_imports.keys()[0];
    session.state.effects.clear();

    session.report(BackendMessage::DmabufImportResult { token, imported: false });
    assert_eq!(session.told_by(1, 97), vec![(zwp_linux_buffer_params::FAILED, vec![])]);
    assert!(session.state.effects.is_empty(), "the description still has the descriptor");

    session.ask(1, 97, zwp_linux_buffer_params::DESTROY, args());
    assert!(session
        .state
        .effects
        .iter()
        .any(|e| matches!(e, Effect::Close(closed) if *closed == fd)));
}

#[test]
fn planes_are_numbered_and_set_once() {
    let mut session = describing_a_dmabuf();
    add_plane(&mut session, 4, 0);
    assert_eq!(session.error(1), Some((97, zwp_linux_buffer_params::ERROR_PLANE_IDX)));

    let mut session = describing_a_dmabuf();
    add_plane(&mut session, 0, 0);
    add_plane(&mut session, 0, 0);
    assert_eq!(session.error(1), Some((97, zwp_linux_buffer_params::ERROR_PLANE_SET)));
}

#[test]
fn a_dmabuf_is_described_completely_and_once() {
    let mut session = describing_a_dmabuf();
    create(&mut session, 16, 16, DRM_FORMAT_XRGB8888);
    assert_eq!(session.error(1), Some((97, zwp_linux_buffer_params::ERROR_INCOMPLETE)));

    let mut session = describing_a_dmabuf();
    add_plane(&mut session, 0, 0);
    create(&mut session, 0, 16, DRM_FORMAT_XRGB8888);
    assert_eq!(session.error(1), Some((97, zwp_linux_buffer_params::ERROR_INVALID_DIMENSIONS)));

    let mut session = describing_a_dmabuf();
    add_plane(&mut session, 0, 0);
    create(&mut session, 16, 16, DRM_FORMAT_XRGB8888);
    create(&mut session, 16, 16, DRM_FORMAT_XRGB8888);
    assert_eq!(session.error(1), Some((97, zwp_linux_buffer_params::ERROR_ALREADY_USED)));
}

#[test]
fn a_dmabuf_of_a_format_nobody_offered_fails() {
    let mut session = describing_a_dmabuf();
    add_plane(&mut session, 0, DRM_FORMAT_MOD_INVALID);
    create(&mut session, 16, 16, 0x3231_564e);
    let told = session.told_by(1, 97);
    assert_eq!(told, vec![(zwp_linux_buffer_params::FAILED, vec![])]);
    assert_eq!(session.error(1), None, "which lets a client fall back");
}

#[test]
fn planes_agree_about_the_layout() {
    let mut session = describing_a_dmabuf();
    add_plane(&mut session, 0, 0);
    add_plane(&mut session, 1, 1);
    create(&mut session, 16, 16, DRM_FORMAT_XRGB8888);
    assert_eq!(session.error(1), Some((97, zwp_linux_buffer_params::ERROR_INVALID_FORMAT)));
}

#[test]
fn a_dmabuf_longer_than_its_memory_is_refused() {
    let mut session = describing_a_dmabuf();
    session.outside.plane_size = 63;
    add_plane(&mut session, 0, 0);
    create(&mut session, 16, 16, DRM_FORMAT_XRGB8888);
    assert_eq!(session.error(1), Some((97, zwp_linux_buffer_params::ERROR_OUT_OF_BOUNDS)));
}

#[test]
fn a_registry_can_be_destroyed_only_if_it_is_one() {
    let mut session = Session::new();
    let client = session.state.clients.get(1).unwrap();
    client.register(98, way_small::client::ObjectType::WlFixes).unwrap();
    session.ask(1, 98, wl_fixes::DESTROY_REGISTRY, args().u32(SHM));
    assert_eq!(session.error(1).map(|(object, _)| object), Some(98));
}

#[test]
fn a_client_that_does_not_read_is_disconnected() {
    let mut session = Session::new();
    session.state.clients.get(1).unwrap().room = 1;
    session.ask(1, DISPLAY_OBJECT_ID, wl_display::SYNC, args().u32(50));
    let client = session.state.clients.get(1).unwrap();
    assert!(client.cancelled);
    assert_eq!(client.take_outbox().len(), 1);
}

#[test]
fn no_two_buffers_share_a_content_serial() {
    let mut session = Session::new();
    session.open_window(1, 4, 2);
    session.buffer(1, 33, 34, 4, 2);
    let serial = |session: &Session, id: u32| {
        session.state.buffers.get((1, id)).unwrap().content_serial
    };
    let (first, second) = (serial(&session, BUFFER), serial(&session, 34));
    assert_ne!(first, second);

    session.show(1, BUFFER);
    let changed = serial(&session, BUFFER);
    assert!(changed > first && changed > second);
    assert_eq!(serial(&session, 34), second);

    session.ask(1, 34, wl_buffer::DESTROY, args());
    session.buffer(1, 35, 34, 4, 2);
    assert!(serial(&session, 34) > changed, "an id used again does not bring a serial back");
}

#[test]
fn a_surface_is_told_of_an_output_once() {
    let mut session = Session::new();
    let name = *session.state.output_global_names.get(OUTPUT).unwrap();
    session.ask(1, REGISTRY, wl_registry::BIND, args().u32(name).string("wl_output").u32(4).u32(95));
    session.open_window(1, 4, 2);
    session.told(1);

    housekeep(&mut session.state, &mut session.pacer, 1);
    assert_eq!(session.told_by(1, SURFACE), vec![(wl_surface::ENTER, vec![95])]);
    housekeep(&mut session.state, &mut session.pacer, 2);
    assert!(session.told_by(1, SURFACE).is_empty());
}

/// A client whose source 80 is on the clipboard, and the offer of it.
fn clipboard_filled() -> (Session, u32, u32) {
    let mut session = Session::new();
    session.open_window(1, 400, 200);
    session.ask(1, SEAT, wl_seat::GET_KEYBOARD, args().u32(85));
    session.ask(1, DATA_DEVICES, wl_data_device_manager::CREATE_DATA_SOURCE, args().u32(80));
    session.ask(1, 80, wl_data_source::OFFER, args().string("text/plain"));
    session.ask(1, DATA_DEVICES, wl_data_device_manager::GET_DATA_DEVICE, args().u32(81).u32(SEAT));
    session.key(30, KeyState::Pressed);
    let told = session.told_by(1, 85);
    let serial = told.iter().find(|(op, _)| *op == wl_keyboard::KEY).unwrap().1[0];
    session.ask(1, 81, wl_data_device::SET_SELECTION, args().u32(80).u32(serial));
    let offer = session.told_by(1, 81)[0].1[0];
    (session, serial, offer)
}

#[test]
fn a_source_is_offered_once() {
    let (mut session, serial, _) = clipboard_filled();
    session.ask(1, 81, wl_data_device::SET_SELECTION, args().u32(80).u32(serial));
    assert_eq!(session.error(1), Some((81, wl_data_device::ERROR_USED_SOURCE)));
}

#[test]
fn what_was_not_dropped_is_not_finished() {
    let (mut session, _, offer) = clipboard_filled();
    session.ask(1, offer, wl_data_offer::FINISH, args());
    assert_eq!(session.error(1), Some((offer, wl_data_offer::ERROR_INVALID_FINISH)));
}

#[test]
fn only_actions_there_are_can_be_accepted_and_preferred() {
    let (mut session, _, offer) = clipboard_filled();
    session.ask(1, offer, wl_data_offer::SET_ACTIONS, args().u32(8).u32(0));
    assert_eq!(session.error(1), Some((offer, wl_data_offer::ERROR_INVALID_ACTION_MASK)));

    let (mut session, _, offer) = clipboard_filled();
    session.ask(1, offer, wl_data_offer::SET_ACTIONS, args().u32(1).u32(2));
    assert_eq!(session.error(1), Some((offer, wl_data_offer::ERROR_INVALID_ACTION)));

    let (mut session, _, offer) = clipboard_filled();
    session.ask(1, offer, wl_data_offer::SET_ACTIONS, args().u32(3).u32(3));
    assert_eq!(session.error(1), Some((offer, wl_data_offer::ERROR_INVALID_ACTION)));
}

#[test]
fn what_is_on_the_clipboard_is_sent_through_the_descriptor_it_is_asked_with() {
    let (mut session, _, offer) = clipboard_filled();
    session.told(1);
    let fd = session.ask_with_fd(1, offer, wl_data_offer::RECEIVE, args().string("text/plain"));
    let told = session.told(1);
    let sent = told.iter().find(|m| m.object_id == 80 && m.op_code == wl_data_source::SEND).unwrap();
    assert_eq!(sent.fds, vec![fd]);
    assert_eq!(ArgReader::new(&sent.args).string().unwrap(), "text/plain");
}

/// A button held down over the client's window, and the serial of its press.
fn button_held() -> (Session, u32) {
    let mut session = Session::new();
    session.open_window(1, 400, 200);
    session.ask(1, SEAT, wl_seat::GET_POINTER, args().u32(86));
    session.ask(1, DATA_DEVICES, wl_data_device_manager::CREATE_DATA_SOURCE, args().u32(80));
    session.ask(1, 80, wl_data_source::OFFER, args().string("text/plain"));
    session.ask(1, DATA_DEVICES, wl_data_device_manager::GET_DATA_DEVICE, args().u32(81).u32(SEAT));
    let frame = session.frame().unwrap();
    let (x, y, _, _) = drawn(&frame, 1, BUFFER)[0];
    session.point(i64::from(x) + 10, i64::from(y) + 20);
    session.press(ButtonState::Pressed);
    let told = session.told_by(1, 86);
    let serial = told.iter().find(|(op, _)| *op == wl_pointer::BUTTON).unwrap().1[0];
    (session, serial)
}

fn start_drag(session: &mut Session, icon: u32, serial: u32) {
    session.ask(
        1,
        81,
        wl_data_device::START_DRAG,
        args().u32(80).u32(SURFACE).u32(icon).u32(serial),
    );
}

#[test]
fn a_drag_icon_is_nothing_else() {
    let (mut session, serial) = button_held();
    start_drag(&mut session, SURFACE, serial);
    assert_eq!(session.error(1), Some((81, wl_data_device::ERROR_ROLE)));
}

#[test]
fn a_drag_starts_off_the_press_it_quotes_and_ends_with_the_release() {
    let (mut session, serial) = button_held();
    start_drag(&mut session, 0, serial.wrapping_add(1));
    assert!(session.state.drag.is_none());
    assert_eq!(session.error(1), None, "refused quietly");

    start_drag(&mut session, 0, serial);
    assert!(session.state.drag.is_some());
    session.press(ButtonState::Released);
    assert!(session.state.drag.is_none());
    let told = session.told_by(1, 80);
    assert_eq!(told, vec![(wl_data_source::CANCELLED, vec![])], "nobody accepted it");
}

#[test]
fn escape_abandons_a_drag_and_reaches_nobody() {
    let (mut session, serial) = button_held();
    session.ask(1, SEAT, wl_seat::GET_KEYBOARD, args().u32(85));
    start_drag(&mut session, 0, serial);
    session.told(1);
    session.key(KEY_ESC, KeyState::Pressed);
    session.key(KEY_ESC, KeyState::Released);
    assert!(session.state.drag.is_none());
    assert!(session.told_by(1, 85).iter().all(|(op, _)| *op != wl_keyboard::KEY));
}

/// A client with a window, a subsurface of it, and a popup over it.
fn everything_open() -> Session {
    let mut session = Session::new();
    session.open_window(1, 400, 200);
    for id in [30, 31] {
        session.ask(1, COMPOSITOR, wl_compositor::CREATE_SURFACE, args().u32(id));
    }
    session.ask(
        1,
        SUBCOMPOSITOR,
        wl_subcompositor::GET_SUBSURFACE,
        args().u32(40).u32(30).u32(SURFACE),
    );
    session.ask(1, WM_BASE, xdg_wm_base::CREATE_POSITIONER, args().u32(50));
    session.ask(1, 50, xdg_positioner::SET_SIZE, args().i32(10).i32(10));
    session.ask(1, 50, xdg_positioner::SET_ANCHOR_RECT, args().i32(0).i32(0).i32(5).i32(5));
    session.ask(1, WM_BASE, xdg_wm_base::GET_XDG_SURFACE, args().u32(51).u32(31));
    session.ask(1, 51, xdg_surface::GET_POPUP, args().u32(52).u32(XDG_SURFACE).u32(50));
    assert_eq!(session.error(1), None);
    session
}

/// Ask with one word fewer than a request has, and then with all of them.
fn needs(object_id: u32, op_code: u16, count: u32) {
    let with = |n: u32| (0..n).fold(args(), |args, _| args.u32(1));
    let mut session = everything_open();
    session.ask(1, object_id, op_code, with(count - 1));
    assert_eq!(session.error(1), Some((object_id, ERROR_INVALID_METHOD)));

    let mut session = everything_open();
    session.ask(1, object_id, op_code, with(count));
    assert_eq!(session.error(1), None);
}

#[test]
fn a_buffer_scale_is_a_number() {
    needs(SURFACE, wl_surface::SET_BUFFER_SCALE, 1);
}

#[test]
fn an_input_region_is_named() {
    needs(SURFACE, wl_surface::SET_INPUT_REGION, 1);
}

#[test]
fn a_pong_says_which_ping_it_answers() {
    needs(WM_BASE, xdg_wm_base::PONG, 1);
}

#[test]
fn requests_nothing_comes_of_are_whole_too() {
    needs(SURFACE, wl_surface::SET_OPAQUE_REGION, 1);
    needs(SURFACE, wl_surface::SET_BUFFER_TRANSFORM, 1);
    needs(40, wl_subsurface::PLACE_ABOVE, 1);
    needs(40, wl_subsurface::PLACE_BELOW, 1);
    needs(50, xdg_positioner::SET_PARENT_CONFIGURE, 1);
    needs(52, xdg_popup::GRAB, 2);
    needs(TOPLEVEL, xdg_toplevel::SHOW_WINDOW_MENU, 4);
    needs(TOPLEVEL, xdg_toplevel::SET_FULLSCREEN, 1);
}

#[test]
fn an_anchor_and_a_gravity_are_ones_there_are() {
    for op_code in [xdg_positioner::SET_ANCHOR, xdg_positioner::SET_GRAVITY] {
        let mut session = everything_open();
        session.ask(1, 50, op_code, args().u32(8));
        assert_eq!(session.error(1), None);
        session.ask(1, 50, op_code, args().u32(9));
        assert_eq!(session.error(1), Some((50, ERROR_INVALID_METHOD)));

        let mut session = everything_open();
        session.state.xdg_positioners.remove((1, 50));
        session.ask(1, 50, op_code, args().u32(9));
        assert_eq!(session.error(1), None, "there is nothing to be wrong about");
    }
}

#[test]
fn a_drag_icon_is_no_window() {
    let (mut session, serial) = button_held();
    session.ask(1, COMPOSITOR, wl_compositor::CREATE_SURFACE, args().u32(30));
    start_drag(&mut session, 30, serial);
    assert!(session.state.drag.is_some());
    assert_eq!(session.error(1), None);
    session.ask(1, WM_BASE, xdg_wm_base::GET_XDG_SURFACE, args().u32(51).u32(30));
    assert_eq!(session.error(1), Some((WM_BASE, 0)));
}

#[test]
fn windows_brought_inside_once_stay_where_they_are() {
    let mut session = Session::new();
    session.open_window(1, 400, 200);
    let wide = OutputId(2);
    session.report(BackendMessage::OutputInfo { outputs: vec![output(wide, 5000)] });
    assert!(session.state.confine_toplevels(), "its output has gone");
    assert!(!session.state.confine_toplevels());
    assert!(session.state.workspaces.is_visible((1, SURFACE)));
    assert_eq!(session.state.workspaces.visible_stack(wide), vec![(1, SURFACE)]);
    assert_eq!(session.state.workspaces.visible_stack(OUTPUT), vec![]);

    let surface = session.state.surfaces.get_mut((1, SURFACE)).unwrap();
    surface.position = (0, 0);
    assert!(session.state.confine_toplevels());
    assert!(!session.state.confine_toplevels());
}

#[test]
fn each_client_is_focused_once_in_a_round() {
    let mut session = Session::new();
    for client_id in 1..4 {
        if client_id > 1 {
            session.connect(client_id);
        }
        session.open_window(client_id, 400, 200);
    }
    let stack = session.state.workspaces.visible_stack(OUTPUT);
    assert_eq!(stack.len(), 3);
    let mut on_top = Vec::new();
    for _ in 0..3 {
        cycle_focus(&mut session.state);
        let now = session.state.workspaces.visible_stack(OUTPUT);
        on_top.push(now[2]);
    }
    on_top.sort();
    assert_eq!(on_top, vec![(1, SURFACE), (2, SURFACE), (3, SURFACE)]);
    assert_eq!(session.state.workspaces.visible_stack(OUTPUT), stack);
}

#[test]
fn a_request_claims_its_descriptor_even_if_it_is_refused() {
    let mut session = Session::new();
    let fds = vec![Fd(70), Fd(71)];
    handle_socket(&mut session.state, WaylandSocketMessage::Descriptors { client_id: 1, fds });
    session.ask(1, COMPOSITOR, wl_compositor::CREATE_SURFACE, args().u32(SURFACE));
    assert_eq!(session.state.clients.get(1).unwrap().fd_queue.len(), 2);
    session.ask(1, SHM, wl_shm::CREATE_POOL, args().u32(POOL).i32(0));
    let client = session.state.clients.get(1).unwrap();
    assert_eq!(client.fd_queue, vec![Fd(71)], "the oldest was its own");
}

#[test]
fn a_description_makes_one_buffer_whichever_way_it_is_asked_for() {
    let mut session = describing_a_dmabuf();
    add_plane(&mut session, 0, 0);
    create(&mut session, 16, 16, DRM_FORMAT_XRGB8888);
    assert_eq!(session.error(1), None);
    session.ask(
        1,
        97,
        zwp_linux_buffer_params::CREATE_IMMED,
        args().u32(99).i32(16).i32(16).u32(DRM_FORMAT_XRGB8888).u32(0),
    );
    assert_eq!(session.error(1), Some((97, zwp_linux_buffer_params::ERROR_ALREADY_USED)));
}

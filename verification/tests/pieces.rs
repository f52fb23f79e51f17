//! The pieces the compositor is put together from, one at a time: framing,
//! configuration, cursors, textures, ids, serials and stacking.

use way_small::client::{is_server_id, Clients, ClientState, ObjectType, SERVER_ID_BASE};
use way_small::config::{
    backend_from_name, choose_backend, choose_socket_name, socket_location, Backend, ConfigFile,
};
use way_small::cursor::{
    argb_to_bytes, cursor_from_file, fallback_cursor_pixels, nearest_cursor, CursorImage,
    CURSOR_BLACK, CURSOR_WHITE, FALLBACK_CURSOR_HEIGHT, FALLBACK_CURSOR_WIDTH,
};
use way_small::framing::{read_frame, write_frame, Framing};
use way_small::scene::repack_rows;
use way_small::shared::{
    Output, OutputGeometry, OutputId, OutputSubpixel, OutputTransform, PixelFormat, Scene,
    SceneElement, TextureId, TextureImage, TextureRect, TextureSource, UploadPixels,
};
use way_small::state::CompositorState;
use way_small::text::{decimal_text, joined};
use way_small::textures::{region_span, row_length, TextureCache, UploadPlan};
use way_small::transfer::settle_action;
use way_small::wire::{build_message, Fd, WaylandProtocolMessage};
use way_small::workspace::Workspaces;

fn message(args: Vec<u8>) -> WaylandProtocolMessage {
    WaylandProtocolMessage { object_id: 0x0102_0304, op_code: 5, args, fds: Vec::new() }
}

#[test]
fn a_framed_message_is_read_back() {
    let written = write_frame(&message(vec![9, 8, 7, 6])).unwrap();
    assert_eq!(written, vec![4, 3, 2, 1, 5, 0, 12, 0, 9, 8, 7, 6]);

    let mut stream = written.clone();
    stream.extend_from_slice(&[1, 2, 3]);
    assert_eq!(
        read_frame(&stream),
        Framing::Whole { object_id: 0x0102_0304, op_code: 5, size: 12 },
        "whatever follows it"
    );
}

#[test]
fn a_frame_is_whole_only_once_all_of_it_is_there() {
    let written = write_frame(&message(vec![9, 8, 7, 6])).unwrap();
    for end in 0..written.len() {
        assert_eq!(read_frame(&written[..end]), Framing::Partial);
    }
}

#[test]
fn a_frame_shorter_than_its_header_is_malformed() {
    assert_eq!(read_frame(&[1, 0, 0, 0, 0, 0, 7, 0]), Framing::Malformed);
    assert_eq!(
        read_frame(&[1, 0, 0, 0, 0, 0, 8, 0]),
        Framing::Whole { object_id: 1, op_code: 0, size: 8 }
    );
}

#[test]
fn a_frame_has_no_more_than_sixteen_bits_of_length() {
    assert!(write_frame(&message(vec![0; 0xffff - 8])).is_some());
    assert!(write_frame(&message(vec![0; 0xffff - 7])).is_none());
}

fn configured(backend: Option<&str>, socket_path: Option<&str>) -> ConfigFile {
    ConfigFile {
        backend: backend.map(String::from),
        socket_path: socket_path.map(String::from),
    }
}

#[test]
fn the_first_configuration_found_counts() {
    let none = ConfigFile::first_of(vec![None, None]);
    assert_eq!((none.backend, none.socket_path), (None, None));
    let second = ConfigFile::first_of(vec![None, Some(configured(Some("none"), None))]);
    assert_eq!(second.backend.as_deref(), Some("none"));
    let first = ConfigFile::first_of(vec![
        Some(configured(None, Some("one"))),
        Some(configured(Some("none"), Some("two"))),
    ]);
    assert_eq!(first.backend, None, "as a whole");
    assert_eq!(first.socket_path.as_deref(), Some("one"));
}

#[test]
fn the_command_line_comes_before_the_configuration() {
    assert_eq!(backend_from_name(&String::from("winit")), Some(Backend::Winit));
    assert_eq!(backend_from_name(&String::from("none")), Some(Backend::Headless));
    assert_eq!(backend_from_name(&String::from("drm")), None);

    let file = configured(Some("none"), Some("file-socket"));
    assert_eq!(choose_backend(Some(Backend::Winit), &file), Backend::Winit);
    assert_eq!(choose_backend(None, &file), Backend::Headless);
    assert_eq!(choose_backend(None, &configured(Some("drm"), None)), Backend::Winit);
    assert_eq!(choose_backend(None, &configured(None, None)), Backend::Winit);

    assert_eq!(choose_socket_name(Some(String::from("asked")), &file), "asked");
    assert_eq!(choose_socket_name(None, &file), "file-socket");
    assert_eq!(choose_socket_name(None, &configured(None, None)), "way-small-0");
}

#[test]
fn a_socket_is_in_the_runtime_directory_unless_it_says_otherwise() {
    let dir = || Some(String::from("/run/user/1"));
    assert_eq!(
        socket_location(&String::from("way-small-0"), dir()).as_deref(),
        Some("/run/user/1/way-small-0")
    );
    assert_eq!(socket_location(&String::from("/tmp/s"), dir()).as_deref(), Some("/tmp/s"));
    assert_eq!(socket_location(&String::from("/tmp/s"), None).as_deref(), Some("/tmp/s"));
    assert_eq!(socket_location(&String::from("s"), None), None);
}

#[test]
fn text_is_put_together_piece_by_piece() {
    assert_eq!(joined("a", "ß", "c"), "aßc");
    assert_eq!(decimal_text(0), "0");
    assert_eq!(decimal_text(u32::MAX), "4294967295");
}

/// One image of a cursor file, all of its pixels alike.
fn image_chunk(size: u32, width: u32, height: u32, pixel: u32) -> Vec<u8> {
    let mut chunk = Vec::new();
    for word in [36, 0xfffd_0002, size, 1, width, height, 1, 2, 0] {
        chunk.extend_from_slice(&u32::to_le_bytes(word));
    }
    for _ in 0..width * height {
        chunk.extend_from_slice(&pixel.to_le_bytes());
    }
    chunk
}

/// A cursor file of some images.
fn cursor_file(images: &[(u32, Vec<u8>)]) -> Vec<u8> {
    let mut file = b"Xcur".to_vec();
    for word in [16, 0x1_0000, images.len() as u32] {
        file.extend_from_slice(&word.to_le_bytes());
    }
    let mut at = 16 + 12 * images.len() as u32;
    for (size, chunk) in images {
        for word in [0xfffd_0002, *size, at] {
            file.extend_from_slice(&u32::to_le_bytes(word));
        }
        at += chunk.len() as u32;
    }
    for (_, chunk) in images {
        file.extend_from_slice(chunk);
    }
    file
}

#[test]
fn the_image_of_a_cursor_file_nearest_in_size_is_taken() {
    let file = cursor_file(&[
        (16, image_chunk(16, 2, 3, 0xff11_2233)),
        (32, image_chunk(32, 4, 4, 0x8044_5566)),
    ]);
    let small = cursor_from_file(&file, 20).unwrap();
    assert_eq!((small.width, small.height, small.hotspot_x, small.hotspot_y), (2, 3, 1, 2));
    assert_eq!(small.pixels, vec![0xff11_2233; 6]);
    let large = cursor_from_file(&file, 48).unwrap();
    assert_eq!((large.width, large.height), (4, 4));
    assert_eq!(large.pixels, vec![0x8044_5566; 16]);
    assert_eq!(cursor_from_file(&file, 24).unwrap().width, 2, "of two equally near, the first");
}

#[test]
fn what_is_no_cursor_file_is_no_cursor() {
    assert!(cursor_from_file(&b"Xcursor".to_vec(), 24).is_none());
    assert!(cursor_from_file(&Vec::new(), 24).is_none());
    assert!(cursor_from_file(&cursor_file(&[]), 24).is_none(), "nor is one without images");
    let cut = cursor_file(&[(16, image_chunk(16, 2, 3, 1)[..40].to_vec())]);
    assert!(cursor_from_file(&cut, 24).is_none());
}

#[test]
fn the_nearest_cursor_counts_sizes_from_both_sides() {
    let image = |size: u32| CursorImage {
        size,
        width: size,
        height: 1,
        xhot: 0,
        yhot: 0,
        pixels: vec![0x11, 0x22, 0x33, 0x44, 0x55],
    };
    assert!(nearest_cursor(&Vec::new(), 24).is_none());
    let found = nearest_cursor(&vec![image(64), image(30), image(20)], 24).unwrap();
    assert_eq!(found.width, 20);
    assert_eq!(found.pixels, vec![0x4433_2211], "what is left over is left out");
}

#[test]
fn the_built_in_cursor_is_an_arrow() {
    let (width, height, pixels) = fallback_cursor_pixels();
    assert_eq!((width, height), (12, 19));
    assert_eq!(pixels.len(), FALLBACK_CURSOR_WIDTH * FALLBACK_CURSOR_HEIGHT);
    assert_eq!(pixels[0], CURSOR_BLACK, "its tip is where it points");
    assert!(pixels.contains(&CURSOR_WHITE));
    assert_eq!(pixels[11], 0, "and what is beside it is seen through");
    assert_eq!(argb_to_bytes(&vec![0x0102_0304, 0xff00_0000]), vec![4, 3, 2, 1, 0, 0, 0, 0xff]);
}

fn image(serial: u64, previous: Option<u64>, damage: Vec<TextureRect>) -> TextureImage {
    TextureImage {
        id: TextureId::Buffer(1, 2),
        serial,
        width: 8,
        height: 4,
        format: PixelFormat::Argb8888,
        source: TextureSource::Upload {
            pixels: UploadPixels::Mapped { guard: 1, pool: (1, 3), offset: 0, stride: 40 },
            previous_serial: previous,
            damage,
        },
    }
}

const CORNER: TextureRect = TextureRect { x: 1, y: 1, width: 2, height: 2 };

#[test]
fn only_what_changed_since_a_known_copy_is_uploaded() {
    let mut cache = TextureCache::new();
    assert!(matches!(cache.plan(&image(1, None, vec![])), UploadPlan::Whole));
    cache.record(&image(1, None, vec![]));
    assert!(matches!(cache.plan(&image(1, None, vec![])), UploadPlan::Current));
    match cache.plan(&image(2, Some(1), vec![CORNER])) {
        UploadPlan::Patch(parts) => assert_eq!(parts, vec![CORNER]),
        other => panic!("expected a patch, not {other:?}"),
    }
    assert!(matches!(cache.plan(&image(3, Some(2), vec![CORNER])), UploadPlan::Whole));
    assert!(matches!(cache.plan(&image(2, Some(1), vec![])), UploadPlan::Whole));
    let mut wider = image(2, Some(1), vec![CORNER]);
    wider.width = 9;
    assert!(matches!(cache.plan(&wider), UploadPlan::Whole));
    cache.forget(TextureId::Buffer(1, 2));
    assert!(matches!(cache.plan(&image(1, None, vec![])), UploadPlan::Whole));
}

#[test]
fn textures_nothing_shows_are_dropped() {
    let mut cache = TextureCache::new();
    cache.record(&image(1, None, vec![]));
    let showing = Scene {
        output_id: OutputId(1),
        serial: 1,
        elements: vec![SceneElement {
            texture: image(1, None, vec![]),
            src: (0, 0, 8 * 256, 4 * 256),
            dst: (0, 0, 8, 4),
        }],
    };
    assert!(cache.drop_unused(&vec![showing.again()]).is_empty());
    assert_eq!(cache.drop_unused(&vec![]), vec![TextureId::Buffer(1, 2)]);
    assert!(cache.drop_unused(&vec![]).is_empty());
}

#[test]
fn a_part_of_an_image_starts_at_its_first_pixel() {
    assert_eq!(row_length(&image(1, None, vec![])), 10, "forty bytes are ten pixels");
    assert_eq!(region_span(CORNER, 10, 1000), Some((44, 48)));
    assert_eq!(region_span(CORNER, 10, 92), Some((44, 48)));
    assert_eq!(region_span(CORNER, 10, 91), None);
    assert_eq!(region_span(TextureRect { x: -1, ..CORNER }, 10, 1000), None);
    assert_eq!(region_span(TextureRect { height: 0, ..CORNER }, 10, 1000), None);
}

#[test]
fn rows_are_packed_without_what_is_between_them() {
    let bytes = [9, 1, 2, 9, 3, 4, 9];
    assert_eq!(repack_rows(&bytes, 1, 3, 2, 2), Some(vec![1, 2, 3, 4]));
    assert_eq!(repack_rows(&bytes, 1, 3, 2, 3), None);
    assert_eq!(repack_rows(&bytes, 0, 3, 2, 0), Some(vec![]));
}

#[test]
fn an_id_names_one_object_at_a_time() {
    let mut client = ClientState::new(10);
    assert_eq!(client.register(5, ObjectType::WlSurface), Ok(()));
    assert_eq!(client.register(5, ObjectType::WlRegion), Err(()));
    client.unregister(5);
    let told = client.take_outbox();
    assert!(told.iter().any(|m| m.object_id == 1 && m.args == vec![5, 0, 0, 0]));
}

#[test]
fn ids_the_compositor_makes_up_are_never_used_again() {
    let mut client = ClientState::new(10);
    let first = client.allocate_id(ObjectType::WlBuffer).unwrap();
    assert_eq!(first, SERVER_ID_BASE);
    assert!(is_server_id(first));
    client.unregister(first);
    assert_eq!(client.allocate_id(ObjectType::WlBuffer), Some(SERVER_ID_BASE + 1));
    assert!(client.take_outbox().is_empty(), "nor are they given back");
}

#[test]
fn a_client_is_sent_its_messages_in_order_until_it_is_disconnected() {
    let mut client = ClientState::new(3);
    assert!(client.send(build_message(1, 1, vec![])).is_ok());
    assert!(client.send(build_message(2, 1, vec![])).is_ok());
    client.send_error(7, 3, "no");
    assert!(client.cancelled);
    let told = client.take_outbox();
    assert_eq!(told.iter().map(|m| m.object_id).collect::<Vec<_>>(), vec![1, 2, 1]);
    assert_eq!(told[2].args, vec![7, 0, 0, 0, 3, 0, 0, 0, 3, 0, 0, 0, b'n', b'o', 0, 0]);
}

#[test]
fn descriptors_go_down_with_what_could_not_be_sent() {
    let mut client = ClientState::new(0);
    let mut doomed = build_message(1, 1, vec![]);
    doomed.fds.push(Fd(12));
    assert!(client.send(doomed).is_err());
    assert_eq!(client.take_closing(), vec![Fd(12)]);
    assert!(client.take_closing().is_empty());
}

#[test]
fn descriptors_are_claimed_oldest_first() {
    let mut clients = Clients::new();
    clients.create(1, 10);
    let client = clients.get(1).unwrap();
    client.fd_queue.push(Fd(3));
    client.fd_queue.push(Fd(4));
    assert_eq!(client.claim_fds(1), Some(vec![Fd(3)]));
    assert_eq!(client.claim_fds(2), None);
    assert_eq!(client.claim_fds(1), Some(vec![Fd(4)]));
}

#[test]
fn serials_follow_each_other_and_may_be_quoted() {
    let mut state = CompositorState::new();
    state.clients.create(1, 10);
    let first = state.next_serial();
    assert_eq!(state.next_serial(), first + 1);
    assert!(!state.is_recent_input_serial(1, first));
    state.record_input_serial(1, first);
    assert!(state.is_recent_input_serial(1, first));
    assert!(!state.is_recent_input_serial(2, first), "by whom they were sent to");
}

#[test]
fn an_action_both_sides_allow_is_settled_on() {
    // copy, move, ask
    assert_eq!(settle_action(1 | 2, 1, 1), 1);
    assert_eq!(settle_action(1 | 2, 1 | 2, 2), 2, "the preferred one if it is among them");
    assert_eq!(settle_action(1, 2, 2), 0, "none if they share none");
}

fn screen(id: u32) -> Output {
    Output {
        id: OutputId(id),
        name: String::new(),
        description: String::new(),
        geometry: OutputGeometry {
            x: 0,
            y: 0,
            physical_width: 100,
            physical_height: 100,
            subpixel: OutputSubpixel::Unknown,
            make: String::new(),
            model: String::new(),
            transform: OutputTransform::Normal,
        },
        modes: Vec::new(),
        scale: 1,
    }
}

#[test]
fn a_window_is_on_one_workspace_at_a_time() {
    let mut workspaces = Workspaces::new();
    let both = vec![screen(1), screen(2)];
    assert!(workspaces.sync_outputs(&both));
    assert!(!workspaces.sync_outputs(&both), "nothing is left to be done");

    assert!(workspaces.place(OutputId(1), (1, 10)));
    assert!(workspaces.place(OutputId(1), (1, 11)));
    assert!(!workspaces.place(OutputId(3), (1, 12)), "there is no such output");
    assert_eq!(workspaces.visible_stack(OutputId(1)), vec![(1, 10), (1, 11)]);

    workspaces.raise((1, 10));
    assert_eq!(workspaces.visible_stack(OutputId(1)), vec![(1, 11), (1, 10)]);
    assert!(workspaces.place(OutputId(2), (1, 10)));
    assert_eq!(workspaces.visible_stack(OutputId(1)), vec![(1, 11)]);
    assert_eq!(workspaces.output_of((1, 10)), Some(OutputId(2)));

    workspaces.sync_outputs(&vec![screen(1)]);
    assert_eq!(workspaces.output_of((1, 10)), None);
    assert_eq!(workspaces.take_unplaced(), vec![(1, 10)], "windows outlive their output");

    workspaces.remove_client(1);
    assert!(workspaces.windows().is_empty());
}

//! Global compositor state.
//!
//! [`CompositorState`] holds everything shared across all clients: the client
//! collection, shm pools, buffers, surfaces, outputs and the rest. Its view is
//! a [`State`], and what an operation does is said as the state it leads to.

use crate::client::{ClientView, Clients, ObjectType};
use crate::dmabuf::{formats_view, DmabufFormat, DmabufFormatView};
use crate::objects::{
    Buffer, BufferParams, BufferView, DataDeviceBinding, DataOffer, DataOfferView, DataSource,
    DataSourceView, DefaultCursor, DefaultCursorView, DmabufImage, DmabufImageView, Drag, DragView,
    KeyboardBinding, PendingImport, PendingImportView, PointerBinding, PointerGrab, Region,
    RegionView, SeatState, ShmPool, Surface, SurfaceView, TouchBinding, ViewportState,
    XdgPopupState, XdgSurfaceState, XdgToplevelState, XdgToplevelView,
};
use crate::positioner::XdgPositionerState;
use crate::shared::{outputs_view, Output, OutputId, OutputView};
use crate::table::{KeySet, Table};
use crate::tree;
use crate::wire::{Fd, Message, WaylandProtocolMessage, WaylandProtocolMessageWithClientInfo};
use crate::workspace::{self, ClientObjectId, Workspaces, WorkspacesView};
use crate::wire;
use vstd::prelude::*;

verus! {

/// How many globals there are before any output or dma-buf support.
pub const GLOBALS_COUNT: u32 = 9;

/// What a client wants for a cursor over its surfaces.
#[derive(Debug, Clone, Copy, PartialEq, Eq, Structural)]
pub enum CursorChoice {
    /// None at all
    Hidden,
    /// A surface of its own, with the hotspot at this point of it
    Shown { surface_id: u32, hotspot_x: i32, hotspot_y: i32 },
}

impl View for CursorChoice {
    type V = CursorChoice;

    open spec fn view(&self) -> CursorChoice {
        *self
    }
}

impl View for OutputId {
    type V = OutputId;

    open spec fn view(&self) -> OutputId {
        *self
    }
}

/// The serials a client has lately been sent, oldest first.
#[derive(Debug)]
pub struct SerialHistory {
    pub serials: Vec<u32>,
}

impl View for SerialHistory {
    type V = Seq<u32>;

    open spec fn view(&self) -> Seq<u32> {
        self.serials@
    }
}

/// A keyboard layout, as a file to be shared with clients.
#[derive(Debug, Clone, Copy, PartialEq, Eq, Structural)]
pub struct Keymap {
    /// The file. It stands for the layout as long as the compositor runs: who
    /// writes a message that carries it gives the client a copy, and keeps it.
    pub fd: Fd,
    /// Its size, terminator counted
    pub size: u32,
}

/// Something for the outside world to do.
#[derive(Debug)]
pub enum Effect {
    /// Close a descriptor
    Close(Fd),
    /// Have the backend try to import a dma-buf, and report back under the token
    ImportDmabuf { token: u64, image: DmabufImage },
}

/// Something for the outside world to do, lists as sequences.
#[verifier::ext_equal]
pub enum EffectView {
    Close(Fd),
    ImportDmabuf { token: u64, image: DmabufImageView },
}

impl View for Effect {
    type V = EffectView;

    open spec fn view(&self) -> EffectView {
        match self {
            Effect::Close(fd) => EffectView::Close(*fd),
            Effect::ImportDmabuf { token, image } => EffectView::ImportDmabuf {
                token: *token,
                image: image@,
            },
        }
    }
}

/// What some effects are.
pub open spec fn effects_view(effects: Seq<Effect>) -> Seq<EffectView> {
    effects.map_values(|e: Effect| e@)
}

/// What a cursor is.
pub open spec fn cursor_view(cursor: Option<DefaultCursor>) -> Option<DefaultCursorView> {
    match cursor {
        Some(c) => Some(c@),
        None => None,
    }
}

/// What a drag is.
pub open spec fn drag_view(drag: Option<Drag>) -> Option<DragView> {
    match drag {
        Some(d) => Some(d@),
        None => None,
    }
}

/// How far out the pointer can get, in 256ths of a pixel: no display reaches
/// further.
pub const CURSOR_LIMIT: i64 = 0x100_0000_0000;

/// An output's text is short enough to be written to a client.
pub open spec fn output_fits(o: OutputView) -> bool {
    &&& wire::writable(o.name)
    &&& wire::writable(o.description)
    &&& wire::writable(o.make)
    &&& wire::writable(o.model)
}

/// Everything that is passed on to clients as text is short enough to be.
pub open spec fn texts_fit(
    sources: Map<ClientObjectId, DataSourceView>,
    offers: Map<ClientObjectId, DataOfferView>,
    outputs: Seq<OutputView>,
) -> bool {
    &&& forall|k: ClientObjectId, i: int|
        sources.contains_key(k) && 0 <= i < sources[k].mime_types.len() ==> wire::writable(
            #[trigger] sources[k].mime_types[i],
        )
    &&& forall|k: ClientObjectId|
        #![trigger offers[k]]
        offers.contains_key(k) && offers[k].accepted is Some ==> wire::writable(
            offers[k].accepted.unwrap(),
        )
    &&& forall|i: int| 0 <= i < outputs.len() ==> output_fits(#[trigger] outputs[i])
}

/// What comes of doing something for each of several things in turn.
pub open spec fn each<S, T>(s: S, items: Seq<T>, f: spec_fn(S, T) -> S) -> S
    decreases items.len(),
{
    if items.len() == 0 {
        s
    } else {
        f(each(s, items.drop_last(), f), items.last())
    }
}

/// One more thing done.
pub proof fn lemma_each_step<S, T>(s: S, items: Seq<T>, f: spec_fn(S, T) -> S, i: int)
    requires
        0 <= i < items.len(),
    ensures
        each(s, items.take(i + 1), f) == f(each(s, items.take(i), f), items[i]),
{
    assert(items.take(i + 1).drop_last() =~= items.take(i));
}

/// Nothing done yet, and everything done.
pub proof fn lemma_each_ends<S, T>(s: S, items: Seq<T>, f: spec_fn(S, T) -> S)
    ensures
        each(s, items.take(0), f) == s,
        each(s, items.take(items.len() as int), f) == each(s, items, f),
{
    assert(items.take(items.len() as int) =~= items);
}

/// Have one descriptor closed.
pub open spec fn closing() -> spec_fn(State, Fd) -> State {
    |s: State, fd: Fd| s.closed(fd)
}

/// Everything the compositor knows.
pub struct CompositorState {
    /// Everyone connected
    pub clients: Clients,
    /// Shared memory pools
    pub shm_pools: Table<ClientObjectId, ShmPool>,
    /// Buffers
    pub buffers: Table<ClientObjectId, Buffer>,
    /// Surfaces
    pub surfaces: Table<ClientObjectId, Surface>,
    /// Regions
    pub regions: Table<ClientObjectId, Region>,
    /// Surfaces with window semantics
    pub xdg_surfaces: Table<ClientObjectId, XdgSurfaceState>,
    /// Windows
    pub xdg_toplevels: Table<ClientObjectId, XdgToplevelState>,
    /// Popups
    pub xdg_popups: Table<ClientObjectId, XdgPopupState>,
    /// Positioners
    pub xdg_positioners: Table<ClientObjectId, XdgPositionerState>,
    /// What the seat can do
    pub seat: SeatState,
    /// The displays
    pub outputs: Vec<Output>,
    /// Maps an output to its `wl_registry` global name, for dynamic output globals.
    pub output_global_names: Table<OutputId, u32>,
    /// Maps a client's `wl_output` object to the output it refers to.
    pub output_bindings: Table<ClientObjectId, OutputId>,
    /// Counter for assigning unique `wl_registry` global names to new outputs.
    pub next_global_number: u32,
    /// Every `wl_pointer`
    pub pointers: Vec<PointerBinding>,
    /// Every `wl_keyboard`
    pub keyboards: Vec<KeyboardBinding>,
    /// Every `wl_touch`
    pub touches: Vec<TouchBinding>,
    /// Every `wl_data_device`
    pub data_devices: Vec<DataDeviceBinding>,
    /// The surface with keyboard focus
    pub focused_surface: Option<ClientObjectId>,
    /// The specific surface (possibly a subsurface) currently under the pointer.
    /// Used for delivering pointer enter/leave/motion/button to the correct surface.
    pub pointer_surface: Option<ClientObjectId>,
    /// Where the pointer is, in 256ths of a pixel
    pub cursor_x: i64,
    /// Where the pointer is, in 256ths of a pixel
    pub cursor_y: i64,
    /// Currently pressed evdev keycodes (for `wl_keyboard.enter` keys array).
    pub pressed_keys: KeySet<u32>,
    /// Keys whose press the compositor consumed for a binding. Their release is
    /// swallowed too, so a client never sees a release for a key it never saw
    /// pressed - which some toolkits treat as a stuck modifier.
    pub consumed_keys: KeySet<u32>,
    /// Maps a `wl_subsurface` to the `wl_surface` object id it controls.
    pub subsurface_map: Table<ClientObjectId, u32>,
    /// `wp_viewport` objects
    pub viewports: Table<ClientObjectId, ViewportState>,
    /// Reverse map: surface -> viewport object id.
    pub surface_viewport: Table<ClientObjectId, u32>,
    /// Buffers to release on the next render (old buffers replaced by commit).
    pub buffers_pending_release: Vec<ClientObjectId>,
    /// dma-buf formats the backend can import.
    ///
    /// Empty until the backend has answered, and empty for good if it cannot
    /// import at all - which is what `zwp_linux_dmabuf_v1` is advertised on. A
    /// compositor that offers dma-buf it cannot draw is worse than one that
    /// offers none: the client allocates for it and then has nothing to fall
    /// back to.
    pub dmabuf_formats: Vec<DmabufFormat>,
    /// The `wl_registry` name dma-buf support goes by, once there is any.
    pub dmabuf_global_name: Option<u32>,
    /// Buffers under construction
    pub dmabuf_params: Table<ClientObjectId, BufferParams>,
    /// Imports the backend has still to answer
    pub pending_dmabuf_imports: Table<u64, PendingImport>,
    /// Source of import tokens
    pub next_import_token: u64,
    /// The workspaces of every output, and the windows on them.
    ///
    /// Outputs own workspaces and workspaces own windows, so this is where a
    /// toplevel's output, its stacking order and whether it is on screen at
    /// all are all read from.
    pub workspaces: Workspaces,
    /// Whether visual state has changed and a re-render is needed.
    pub dirty: bool,
    /// Per-client cursor
    pub cursor_surfaces: Table<u32, CursorChoice>,
    /// Most recent `wl_pointer.enter` serial per client, for `set_cursor` validation.
    pub pointer_enter_serial: Table<u32, u32>,
    /// Surfaces with the cursor role (permanent, prevents other role assignment).
    pub cursor_role_surfaces: KeySet<ClientObjectId>,
    /// Surfaces with the drag icon role, as permanent.
    pub dnd_icon_surfaces: KeySet<ClientObjectId>,
    /// Pre-loaded cursor from the system cursor theme, used when no client cursor is set.
    pub default_cursor: Option<DefaultCursor>,
    /// Stack of popups that have called `grab`, newest on top.
    /// When the user clicks outside the topmost grabbed popup, it is dismissed.
    pub grabbed_popups: Vec<ClientObjectId>,
    /// The interactive move or resize in progress, if any.
    pub pointer_grab: Option<PointerGrab>,
    /// The drag in progress, if any.
    pub drag: Option<Drag>,
    /// The source on the clipboard, if any.
    pub selection: Option<ClientObjectId>,
    /// What clients say they can produce
    pub data_sources: Table<ClientObjectId, DataSource>,
    /// What clients have been offered
    pub data_offers: Table<ClientObjectId, DataOffer>,
    /// Mouse buttons currently held, as evdev codes.
    pub pressed_buttons: KeySet<u32>,
    /// Serial of each client's most recent `wl_pointer.button` press, which a
    /// client must quote when it asks to start a move or resize.
    pub last_button_serial: Table<u32, u32>,
    /// The input serials each client has lately been sent, oldest first.
    pub input_serials: Table<u32, SerialHistory>,
    /// The surface each finger that is down started on.
    pub touch_points: Table<i32, ClientObjectId>,
    /// A touchpad scroll is moving the vertical axis.
    pub scrolling_vertical: bool,
    /// A touchpad scroll is moving the horizontal axis.
    pub scrolling_horizontal: bool,
    /// For how many more ticks each flashing output flashes.
    pub bells: Table<OutputId, u32>,
    /// Source of `Buffer::content_serial`. Only ever incremented, so no two
    /// buffer contents in the lifetime of the compositor share a serial.
    pub next_content_serial: u64,
    /// What each live buffer's readers hold, so a buffer registered anew is not
    /// mistaken for the one somebody is still reading.
    pub buffer_guards: Table<ClientObjectId, u64>,
    /// How many are reading through each guard. None is entered for nobody.
    pub buffer_readers: Table<u64, u32>,
    /// Buffers the compositor has finished with, waiting on their readers
    /// before `wl_buffer.release` can be sent.
    pub releasing_buffers: KeySet<ClientObjectId>,
    /// dma-bufs no client has any more but somebody is still reading, by what
    /// their readers read through.
    pub retired_images: Table<u64, DmabufImage>,
    /// The serial the next event that carries one will carry.
    pub next_serial: u32,
    /// The keyboard layout clients are given, once it is known.
    pub keymap: Option<Keymap>,
    /// What is left for the outside world to do, oldest first.
    pub effects: Vec<Effect>,
}

/// Everything the compositor knows, as maps, sets and sequences.
#[verifier::ext_equal]
pub struct State {
    pub clients: Map<u32, ClientView>,
    pub shm_pools: Map<ClientObjectId, ShmPool>,
    pub buffers: Map<ClientObjectId, BufferView>,
    pub surfaces: Map<ClientObjectId, SurfaceView>,
    pub regions: Map<ClientObjectId, RegionView>,
    pub xdg_surfaces: Map<ClientObjectId, XdgSurfaceState>,
    pub xdg_toplevels: Map<ClientObjectId, XdgToplevelView>,
    pub xdg_popups: Map<ClientObjectId, XdgPopupState>,
    pub xdg_positioners: Map<ClientObjectId, XdgPositionerState>,
    pub seat: SeatState,
    pub outputs: Seq<OutputView>,
    pub output_global_names: Map<OutputId, u32>,
    pub output_bindings: Map<ClientObjectId, OutputId>,
    pub next_global_number: u32,
    pub pointers: Seq<PointerBinding>,
    pub keyboards: Seq<KeyboardBinding>,
    pub touches: Seq<TouchBinding>,
    pub data_devices: Seq<DataDeviceBinding>,
    pub focused_surface: Option<ClientObjectId>,
    pub pointer_surface: Option<ClientObjectId>,
    pub cursor_x: i64,
    pub cursor_y: i64,
    pub pressed_keys: Set<u32>,
    pub consumed_keys: Set<u32>,
    pub subsurface_map: Map<ClientObjectId, u32>,
    pub viewports: Map<ClientObjectId, ViewportState>,
    pub surface_viewport: Map<ClientObjectId, u32>,
    pub buffers_pending_release: Seq<ClientObjectId>,
    pub dmabuf_formats: Seq<DmabufFormatView>,
    pub dmabuf_global_name: Option<u32>,
    pub dmabuf_params: Map<ClientObjectId, BufferParams>,
    pub pending_dmabuf_imports: Map<u64, PendingImportView>,
    pub next_import_token: u64,
    pub workspaces: WorkspacesView,
    pub dirty: bool,
    pub cursor_surfaces: Map<u32, CursorChoice>,
    pub pointer_enter_serial: Map<u32, u32>,
    pub cursor_role_surfaces: Set<ClientObjectId>,
    pub dnd_icon_surfaces: Set<ClientObjectId>,
    pub default_cursor: Option<DefaultCursorView>,
    pub grabbed_popups: Seq<ClientObjectId>,
    pub pointer_grab: Option<PointerGrab>,
    pub drag: Option<DragView>,
    pub selection: Option<ClientObjectId>,
    pub data_sources: Map<ClientObjectId, DataSourceView>,
    pub data_offers: Map<ClientObjectId, DataOfferView>,
    pub pressed_buttons: Set<u32>,
    pub last_button_serial: Map<u32, u32>,
    pub input_serials: Map<u32, Seq<u32>>,
    pub touch_points: Map<i32, ClientObjectId>,
    pub scrolling_vertical: bool,
    pub scrolling_horizontal: bool,
    pub bells: Map<OutputId, u32>,
    pub next_content_serial: u64,
    pub buffer_guards: Map<ClientObjectId, u64>,
    pub buffer_readers: Map<u64, u32>,
    pub releasing_buffers: Set<ClientObjectId>,
    pub retired_images: Map<u64, DmabufImageView>,
    pub next_serial: u32,
    pub keymap: Option<Keymap>,
    pub effects: Seq<EffectView>,
}

impl View for CompositorState {
    type V = State;

    open spec fn view(&self) -> State {
        State {
            clients: self.clients@,
            shm_pools: self.shm_pools@,
            buffers: self.buffers@,
            surfaces: self.surfaces@,
            regions: self.regions@,
            xdg_surfaces: self.xdg_surfaces@,
            xdg_toplevels: self.xdg_toplevels@,
            xdg_popups: self.xdg_popups@,
            xdg_positioners: self.xdg_positioners@,
            seat: self.seat,
            outputs: outputs_view(self.outputs@),
            output_global_names: self.output_global_names@,
            output_bindings: self.output_bindings@,
            next_global_number: self.next_global_number,
            pointers: self.pointers@,
            keyboards: self.keyboards@,
            touches: self.touches@,
            data_devices: self.data_devices@,
            focused_surface: self.focused_surface,
            pointer_surface: self.pointer_surface,
            cursor_x: self.cursor_x,
            cursor_y: self.cursor_y,
            pressed_keys: self.pressed_keys@,
            consumed_keys: self.consumed_keys@,
            subsurface_map: self.subsurface_map@,
            viewports: self.viewports@,
            surface_viewport: self.surface_viewport@,
            buffers_pending_release: self.buffers_pending_release@,
            dmabuf_formats: formats_view(self.dmabuf_formats@),
            dmabuf_global_name: self.dmabuf_global_name,
            dmabuf_params: self.dmabuf_params@,
            pending_dmabuf_imports: self.pending_dmabuf_imports@,
            next_import_token: self.next_import_token,
            workspaces: self.workspaces@,
            dirty: self.dirty,
            cursor_surfaces: self.cursor_surfaces@,
            pointer_enter_serial: self.pointer_enter_serial@,
            cursor_role_surfaces: self.cursor_role_surfaces@,
            dnd_icon_surfaces: self.dnd_icon_surfaces@,
            default_cursor: cursor_view(self.default_cursor),
            grabbed_popups: self.grabbed_popups@,
            pointer_grab: self.pointer_grab,
            drag: drag_view(self.drag),
            selection: self.selection,
            data_sources: self.data_sources@,
            data_offers: self.data_offers@,
            pressed_buttons: self.pressed_buttons@,
            last_button_serial: self.last_button_serial@,
            input_serials: self.input_serials@,
            touch_points: self.touch_points@,
            scrolling_vertical: self.scrolling_vertical,
            scrolling_horizontal: self.scrolling_horizontal,
            bells: self.bells@,
            next_content_serial: self.next_content_serial,
            buffer_guards: self.buffer_guards@,
            buffer_readers: self.buffer_readers@,
            releasing_buffers: self.releasing_buffers@,
            retired_images: self.retired_images@,
            next_serial: self.next_serial,
            keymap: self.keymap,
            effects: effects_view(self.effects@),
        }
    }
}

impl State {
    /// What is known when nobody has connected and nothing is plugged in.
    pub open spec fn initial() -> Self {
        State {
            clients: Map::empty(),
            shm_pools: Map::empty(),
            buffers: Map::empty(),
            surfaces: Map::empty(),
            regions: Map::empty(),
            xdg_surfaces: Map::empty(),
            xdg_toplevels: Map::empty(),
            xdg_popups: Map::empty(),
            xdg_positioners: Map::empty(),
            seat: SeatState { has_pointer: false, has_keyboard: false, has_touch: false },
            outputs: Seq::empty(),
            output_global_names: Map::empty(),
            output_bindings: Map::empty(),
            next_global_number: GLOBALS_COUNT,
            pointers: Seq::empty(),
            keyboards: Seq::empty(),
            touches: Seq::empty(),
            data_devices: Seq::empty(),
            focused_surface: None,
            pointer_surface: None,
            cursor_x: 0,
            cursor_y: 0,
            pressed_keys: Set::empty(),
            consumed_keys: Set::empty(),
            subsurface_map: Map::empty(),
            viewports: Map::empty(),
            surface_viewport: Map::empty(),
            buffers_pending_release: Seq::empty(),
            dmabuf_formats: Seq::empty(),
            dmabuf_global_name: None,
            dmabuf_params: Map::empty(),
            pending_dmabuf_imports: Map::empty(),
            next_import_token: 0,
            workspaces: WorkspacesView::empty(),
            dirty: true,
            cursor_surfaces: Map::empty(),
            pointer_enter_serial: Map::empty(),
            cursor_role_surfaces: Set::empty(),
            dnd_icon_surfaces: Set::empty(),
            default_cursor: None,
            grabbed_popups: Seq::empty(),
            pointer_grab: None,
            drag: None,
            selection: None,
            data_sources: Map::empty(),
            data_offers: Map::empty(),
            pressed_buttons: Set::empty(),
            last_button_serial: Map::empty(),
            input_serials: Map::empty(),
            touch_points: Map::empty(),
            scrolling_vertical: false,
            scrolling_horizontal: false,
            bells: Map::empty(),
            next_content_serial: 0,
            buffer_guards: Map::empty(),
            buffer_readers: Map::empty(),
            releasing_buffers: Set::empty(),
            retired_images: Map::empty(),
            next_serial: 1,
            keymap: None,
            effects: Seq::empty(),
        }
    }
}

impl CompositorState {
    /// The tables and sets are in order, what is passed on to clients as text
    /// is short enough to be, nothing hangs off itself, no window is in two
    /// workspaces, and the pointer is within reach.
    pub open spec fn wf(&self) -> bool {
        &&& self.clients.wf()
        &&& self.shm_pools.wf()
        &&& self.buffers.wf()
        &&& self.surfaces.wf()
        &&& self.regions.wf()
        &&& self.xdg_surfaces.wf()
        &&& self.xdg_toplevels.wf()
        &&& self.xdg_popups.wf()
        &&& self.xdg_positioners.wf()
        &&& self.output_global_names.wf()
        &&& self.output_bindings.wf()
        &&& self.pressed_keys.wf()
        &&& self.consumed_keys.wf()
        &&& self.subsurface_map.wf()
        &&& self.viewports.wf()
        &&& self.surface_viewport.wf()
        &&& self.dmabuf_params.wf()
        &&& self.pending_dmabuf_imports.wf()
        &&& self.cursor_surfaces.wf()
        &&& self.pointer_enter_serial.wf()
        &&& self.cursor_role_surfaces.wf()
        &&& self.dnd_icon_surfaces.wf()
        &&& self.data_sources.wf()
        &&& self.data_offers.wf()
        &&& self.pressed_buttons.wf()
        &&& self.last_button_serial.wf()
        &&& self.input_serials.wf()
        &&& self.touch_points.wf()
        &&& self.bells.wf()
        &&& self.buffer_guards.wf()
        &&& self.buffer_readers.wf()
        &&& self.releasing_buffers.wf()
        &&& self.retired_images.wf()
        &&& texts_fit(self@.data_sources, self@.data_offers, self@.outputs)
        &&& tree::forest(tree::surface_links(self@.surfaces))
        &&& tree::forest(tree::toplevel_links(self@.xdg_toplevels))
        &&& self@.workspaces.sound()
        &&& -CURSOR_LIMIT <= self.cursor_x <= CURSOR_LIMIT
        &&& -CURSOR_LIMIT <= self.cursor_y <= CURSOR_LIMIT
    }

    /// The state of a compositor nobody has connected to yet.
    pub fn new() -> (r: Self)
        ensures
            r.wf(),
            r@ == State::initial(),
    {
        proof {
            workspace::lemma_sound_empty();
        }
        let r = Self {
            clients: Clients::new(),
            shm_pools: Table::new(),
            buffers: Table::new(),
            surfaces: Table::new(),
            regions: Table::new(),
            xdg_surfaces: Table::new(),
            xdg_toplevels: Table::new(),
            xdg_popups: Table::new(),
            xdg_positioners: Table::new(),
            seat: SeatState { has_pointer: false, has_keyboard: false, has_touch: false },
            outputs: Vec::new(),
            output_global_names: Table::new(),
            output_bindings: Table::new(),
            next_global_number: GLOBALS_COUNT,
            pointers: Vec::new(),
            keyboards: Vec::new(),
            touches: Vec::new(),
            data_devices: Vec::new(),
            focused_surface: None,
            pointer_surface: None,
            cursor_x: 0,
            cursor_y: 0,
            pressed_keys: KeySet::new(),
            consumed_keys: KeySet::new(),
            subsurface_map: Table::new(),
            viewports: Table::new(),
            surface_viewport: Table::new(),
            buffers_pending_release: Vec::new(),
            dmabuf_formats: Vec::new(),
            dmabuf_global_name: None,
            dmabuf_params: Table::new(),
            pending_dmabuf_imports: Table::new(),
            next_import_token: 0,
            workspaces: Workspaces::new(),
            dirty: true,
            cursor_surfaces: Table::new(),
            pointer_enter_serial: Table::new(),
            cursor_role_surfaces: KeySet::new(),
            dnd_icon_surfaces: KeySet::new(),
            default_cursor: None,
            grabbed_popups: Vec::new(),
            pointer_grab: None,
            drag: None,
            selection: None,
            data_sources: Table::new(),
            data_offers: Table::new(),
            pressed_buttons: KeySet::new(),
            last_button_serial: Table::new(),
            input_serials: Table::new(),
            touch_points: Table::new(),
            scrolling_vertical: false,
            scrolling_horizontal: false,
            bells: Table::new(),
            next_content_serial: 0,
            buffer_guards: Table::new(),
            buffer_readers: Table::new(),
            releasing_buffers: KeySet::new(),
            retired_images: Table::new(),
            next_serial: 1,
            keymap: None,
            effects: Vec::new(),
        };
        proof {
            tree::lemma_forest_empty();
            assert(tree::surface_links(r@.surfaces) =~= Map::empty());
            assert(tree::toplevel_links(r@.xdg_toplevels) =~= Map::empty());
        }
        assert(r@ =~= State::initial());
        r
    }
}


impl State {
    /// A client is connected.
    pub open spec fn knows(self, client_id: u32) -> bool {
        self.clients.contains_key(client_id)
    }

    /// The state with another client in place of one.
    pub open spec fn with_client(self, client_id: u32, client: ClientView) -> Self {
        State { clients: self.clients.insert(client_id, client), ..self }
    }

    /// The state once a client has been sent a message. One that is not there
    /// is sent nothing.
    pub open spec fn sent(self, client_id: u32, m: Message) -> Self {
        if self.knows(client_id) {
            self.with_client(client_id, self.clients[client_id].sent(m))
        } else {
            self
        }
    }

    /// The state once a client has been told of an error, and disconnected.
    pub open spec fn errored(self, client_id: u32, object_id: u32, code: u32, msg: Seq<char>) -> Self {
        if self.knows(client_id) {
            self.with_client(client_id, self.clients[client_id].errored(object_id, code, msg))
        } else {
            self
        }
    }

    /// A client is there to give an id to a new object, and the id is free.
    pub open spec fn can_register(self, client_id: u32, id: u32) -> bool {
        self.knows(client_id) && self.clients[client_id].free(id)
    }

    /// The state once a client has named an object, or been told that the name
    /// is taken.
    pub open spec fn registered(self, client_id: u32, id: u32, object_type: ObjectType) -> Self {
        if self.knows(client_id) {
            self.with_client(client_id, self.clients[client_id].registered(id, object_type))
        } else {
            self
        }
    }

    /// The same, with the version the object speaks.
    pub open spec fn registered_with_version(
        self,
        client_id: u32,
        id: u32,
        object_type: ObjectType,
        version: u32,
    ) -> Self {
        if self.knows(client_id) {
            self.with_client(
                client_id,
                self.clients[client_id].registered_with_version(id, object_type, version),
            )
        } else {
            self
        }
    }

    /// The state once a request has named an object, which speaks the version
    /// of the one the request was addressed to.
    pub open spec fn registered_as(self, r: wire::Request, id: u32, object_type: ObjectType) -> Self {
        if self.knows(r.client) {
            self.registered_with_version(
                r.client,
                id,
                object_type,
                self.clients[r.client].version(r.object),
            )
        } else {
            self
        }
    }

    /// The state once an object of a client is gone.
    pub open spec fn unregistered(self, client_id: u32, id: u32) -> Self {
        if self.knows(client_id) {
            self.with_client(client_id, self.clients[client_id].unregistered(id))
        } else {
            self
        }
    }

    /// The version an object of a connected client speaks.
    pub open spec fn version(self, client_id: u32, object_id: u32) -> Option<u32> {
        if self.knows(client_id) {
            Some(self.clients[client_id].version(object_id))
        } else {
            None
        }
    }

    /// A connected client's object speaks at least this version.
    pub open spec fn speaks(self, client_id: u32, object_id: u32, version: u32) -> bool {
        self.knows(client_id) && self.clients[client_id].version(object_id) >= version
    }

    /// The state once a serial has been handed out.
    pub open spec fn ticked(self) -> Self {
        State {
            next_serial: if self.next_serial == u32::MAX {
                0
            } else {
                (self.next_serial + 1) as u32
            },
            ..self
        }
    }

    /// The state with one more thing for the outside world to do.
    pub open spec fn with_effect(self, effect: EffectView) -> Self {
        State { effects: self.effects.push(effect), ..self }
    }

    /// The state once a descriptor is to be closed.
    pub open spec fn closed(self, fd: Fd) -> Self {
        self.with_effect(EffectView::Close(fd))
    }

    /// The state once some descriptors are to be closed.
    pub open spec fn all_closed(self, fds: Seq<Fd>) -> Self {
        each(self, fds, closing())
    }

    /// The state with something to redraw.
    pub open spec fn dirtied(self) -> Self {
        State { dirty: true, ..self }
    }
}

impl CompositorState {
    /// Queue a message for a client. One that is not there is sent nothing.
    pub fn send(&mut self, client_id: u32, msg: WaylandProtocolMessage)
        requires
            old(self).wf(),
        ensures
            final(self).wf(),
            final(self)@ == old(self)@.sent(client_id, msg@),
    {
        if let Some(client) = self.clients.get(client_id) {
            let _ = client.send(msg);
        }
    }

    /// Tell a client what it did wrong, and disconnect it.
    pub fn fail(&mut self, client_id: u32, object_id: u32, code: u32, msg: &str)
        requires
            old(self).wf(),
            msg@.len() <= 0x1000_0000,
        ensures
            final(self).wf(),
            final(self)@ == old(self)@.errored(client_id, object_id, code, msg@),
    {
        if let Some(client) = self.clients.get(client_id) {
            client.send_error(object_id, code, msg);
        }
    }

    /// Register an object a client has named. Returns false if it may not: the
    /// client has then been told, and is being disconnected.
    pub fn register(&mut self, client_id: u32, id: u32, object_type: ObjectType) -> (r: bool)
        requires
            old(self).wf(),
        ensures
            final(self).wf(),
            final(self)@ == old(self)@.registered(client_id, id, object_type),
            r == old(self)@.can_register(client_id, id),
    {
        match self.clients.get(client_id) {
            Some(client) => client.register(id, object_type).is_ok(),
            None => false,
        }
    }

    /// The same, with the version the object speaks.
    pub fn register_with_version(
        &mut self,
        client_id: u32,
        id: u32,
        object_type: ObjectType,
        version: u32,
    ) -> (r: bool)
        requires
            old(self).wf(),
        ensures
            final(self).wf(),
            final(self)@ == old(self)@.registered_with_version(client_id, id, object_type, version),
            r == old(self)@.can_register(client_id, id),
    {
        match self.clients.get(client_id) {
            Some(client) => client.register_with_version(id, object_type, version).is_ok(),
            None => false,
        }
    }

    /// Register an object a request has named, at the version of the one the
    /// request was addressed to. Returns false if it may not be: the client has
    /// then been told, and is being disconnected.
    pub fn register_as(
        &mut self,
        msg: &WaylandProtocolMessageWithClientInfo,
        id: u32,
        object_type: ObjectType,
    ) -> (r: bool)
        requires
            old(self).wf(),
        ensures
            final(self).wf(),
            final(self)@ == old(self)@.registered_as(msg@, id, object_type),
            r == old(self)@.can_register(msg.client_id, id),
    {
        match self.clients.get(msg.client_id) {
            Some(client) => {
                let version: u32 = client.version(msg.message.object_id);
                client.register_with_version(id, object_type, version).is_ok()
            },
            None => false,
        }
    }

    /// Forget an object of a client.
    pub fn unregister(&mut self, client_id: u32, id: u32)
        requires
            old(self).wf(),
        ensures
            final(self).wf(),
            final(self)@ == old(self)@.unregistered(client_id, id),
    {
        if let Some(client) = self.clients.get(client_id) {
            client.unregister(id);
        }
    }

    /// Whether a connected client's object speaks at least this version.
    pub fn speaks(&self, client_id: u32, object_id: u32, version: u32) -> (r: bool)
        requires
            self.wf(),
        ensures
            r == self@.speaks(client_id, object_id, version),
    {
        match self.clients.version_of(client_id, object_id) {
            Some(v) => v >= version,
            None => false,
        }
    }

    /// Hand out the next serial.
    pub fn next_serial(&mut self) -> (r: u32)
        requires
            old(self).wf(),
        ensures
            final(self).wf(),
            final(self)@ == old(self)@.ticked(),
            r == old(self)@.next_serial,
    {
        let serial: u32 = self.next_serial;
        self.next_serial = if serial == u32::MAX { 0 } else { serial + 1 };
        serial
    }

    /// Have a descriptor closed.
    pub fn close(&mut self, fd: Fd)
        requires
            old(self).wf(),
        ensures
            final(self).wf(),
            final(self)@ == old(self)@.closed(fd),
    {
        self.effects.push(Effect::Close(fd));
        assert(self@.effects =~= old(self)@.effects.push(EffectView::Close(fd)));
    }

    /// Have some descriptors closed.
    pub fn close_all(&mut self, fds: &Vec<Fd>)
        requires
            old(self).wf(),
        ensures
            final(self).wf(),
            final(self)@ == old(self)@.all_closed(fds@),
    {
        let mut i: usize = 0;
        proof {
            lemma_each_ends(self@, fds@, closing());
        }
        while i < fds.len()
            invariant
                self.wf(),
                i <= fds@.len(),
                self@ == each(old(self)@, fds@.take(i as int), closing()),
            decreases fds@.len() - i,
        {
            proof {
                lemma_each_step(old(self)@, fds@, closing(), i as int);
            }
            self.close(fds[i]);
            i = i + 1;
        }
        proof {
            lemma_each_ends(old(self)@, fds@, closing());
        }
    }
}

/// How many of the serials it was sent a client may still quote.
pub const RECENT_SERIALS: usize = 16;

/// A history with one more serial at its end, and the oldest gone if it is full.
pub open spec fn remembered(history: Seq<u32>, serial: u32) -> Seq<u32> {
    if history.len() < RECENT_SERIALS {
        history.push(serial)
    } else {
        history.drop_first().push(serial)
    }
}

impl State {
    /// The serials a client has lately been sent.
    pub open spec fn recent_serials(self, client_id: u32) -> Seq<u32> {
        if self.input_serials.contains_key(client_id) {
            self.input_serials[client_id]
        } else {
            Seq::empty()
        }
    }

    /// The state once a client has been sent a serial it may quote.
    pub open spec fn serial_recorded(self, client_id: u32, serial: u32) -> Self {
        State {
            input_serials: self.input_serials.insert(
                client_id,
                remembered(self.recent_serials(client_id), serial),
            ),
            ..self
        }
    }

    /// A client quotes a serial it has lately been sent.
    pub open spec fn is_recent(self, client_id: u32, serial: u32) -> bool {
        self.recent_serials(client_id).contains(serial)
    }
}

impl CompositorState {
    /// Take note of a serial a client has been sent with an input event.
    pub fn record_input_serial(&mut self, client_id: u32, serial: u32)
        requires
            old(self).wf(),
        ensures
            final(self).wf(),
            final(self)@ == old(self)@.serial_recorded(client_id, serial),
    {
        let mut serials: Vec<u32> = match self.input_serials.remove(client_id) {
            Some(history) => history.serials,
            None => Vec::new(),
        };
        if serials.len() >= RECENT_SERIALS {
            serials.remove(0);
        }
        serials.push(serial);
        assert(serials@ =~= remembered(old(self)@.recent_serials(client_id), serial));
        self.input_serials.insert(client_id, SerialHistory { serials });
        assert(self@.input_serials =~= old(self)@.serial_recorded(client_id, serial).input_serials);
    }

    /// Whether a serial is one a client has lately been sent with an input
    /// event.
    pub fn is_recent_input_serial(&self, client_id: u32, serial: u32) -> (r: bool)
        requires
            self.wf(),
        ensures
            r == self@.is_recent(client_id, serial),
    {
        match self.input_serials.get(client_id) {
            Some(history) => {
                let mut i: usize = 0;
                while i < history.serials.len()
                    invariant
                        i <= history.serials@.len(),
                        history.serials@ == self@.recent_serials(client_id),
                        forall|j: int| 0 <= j < i ==> #[trigger] history.serials@[j] != serial,
                    decreases history.serials@.len() - i,
                {
                    if history.serials[i] == serial {
                        assert(history.serials@[i as int] == serial);
                        return true;
                    }
                    i = i + 1;
                }
                false
            },
            None => false,
        }
    }
}

/// A function that keeps something true of what things have come to keeps it
/// true however many things it is done for.
pub proof fn lemma_each_keeps<S, T>(
    s: S,
    items: Seq<T>,
    f: spec_fn(S, T) -> S,
    inv: spec_fn(S) -> bool,
)
    requires
        inv(s),
        forall|a: S, t: T| inv(a) ==> inv(#[trigger] f(a, t)),
    ensures
        inv(each(s, items, f)),
    decreases items.len(),
{
    if items.len() > 0 {
        lemma_each_keeps(s, items.drop_last(), f, inv);
    }
}

/// Closing descriptors leaves everything as it is but for what is to be closed.
pub proof fn lemma_closing_only_closes(fds: Seq<Fd>)
    ensures
        forall|s: State| #[trigger]
            s.all_closed(fds) == (State { effects: s.all_closed(fds).effects, ..s }),
{
    assert forall|s: State| #[trigger]
        s.all_closed(fds) == (State { effects: s.all_closed(fds).effects, ..s }) by {
        let inv = |a: State| a == (State { effects: a.effects, ..s });
        lemma_each_keeps(s, fds, closing(), inv);
    }
}

/// Doing away with things one after another does away with all of them, and
/// brings back none that was not there.
pub proof fn lemma_each_removes<S, T>(
    s: S,
    items: Seq<T>,
    f: spec_fn(S, T) -> S,
    there: spec_fn(S) -> Set<T>,
    inv: spec_fn(S) -> bool,
)
    requires
        inv(s),
        forall|a: S, t: T|
            inv(a) && items.contains(t) ==> inv(#[trigger] f(a, t)) && there(f(a, t)).subset_of(
                there(a).remove(t),
            ),
    ensures
        inv(each(s, items, f)),
        there(each(s, items, f)).subset_of(there(s)),
        forall|t: T| items.contains(t) ==> !(#[trigger] there(each(s, items, f)).contains(t)),
    decreases items.len(),
{
    if items.len() > 0 {
        let rest = items.drop_last();
        let last = items.last();
        assert forall|t: T| rest.contains(t) implies items.contains(t) by {
            let n = choose|n: int| 0 <= n < rest.len() && rest[n] == t;
            assert(items[n] == t);
        }
        lemma_each_removes(s, rest, f, there, inv);
        let before = each(s, rest, f);
        assert(items[items.len() - 1] == last);
        assert(items.contains(last));
        assert(each(s, items, f) == f(before, last));
        assert forall|t: T| items.contains(t) implies !(#[trigger] there(
            each(s, items, f),
        ).contains(t)) by {
            if t != last {
                let n = choose|n: int| 0 <= n < items.len() && items[n] == t;
                assert(rest[n] == t);
                assert(rest.contains(t));
                assert(!there(before).contains(t));
            }
        }
    }
}

/// A serial a client has been sent is one it may quote, until as many others
/// have followed it as are remembered. At most so many are.
pub proof fn law_a_serial_may_be_quoted_for_a_while(s: State, client_id: u32, serial: u32)
    ensures
        s.serial_recorded(client_id, serial).is_recent(client_id, serial),
        forall|other: u32, c: u32|
            c != client_id ==> #[trigger] s.serial_recorded(client_id, serial).is_recent(c, other)
                == s.is_recent(c, other),
        s.recent_serials(client_id).len() <= RECENT_SERIALS ==> s.serial_recorded(
            client_id,
            serial,
        ).recent_serials(client_id).len() <= RECENT_SERIALS,
{
    let history = s.recent_serials(client_id);
    let after = remembered(history, serial);
    assert(after[after.len() - 1] == serial);
    assert(s.serial_recorded(client_id, serial).recent_serials(client_id) == after);
}

/// The serials of events that follow each other differ.
pub proof fn law_serials_follow_each_other(s: State)
    ensures
        s.ticked().next_serial != s.next_serial,
        s.next_serial != u32::MAX ==> s.ticked().next_serial == s.next_serial + 1,
{
}

} // verus!

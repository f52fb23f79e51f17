//! What is left of a client that has gone: nothing.

use crate::buffers;
use crate::client::ObjectType;
use crate::objects;
use crate::protocol::wl_data_device;
use crate::protocol::zwp_linux_buffer_params as params;
use crate::seqs;
use crate::shell;
use crate::state::{self, State};
use crate::table;
use crate::transfer;
use crate::wire;
use crate::workspace::{self, ClientObjectId};
use vstd::prelude::*;

verus! {

impl State {
    /// A state differs from another at most in what clients have been sent and
    /// in what is being transferred between them.
    pub open spec fn transfers_since(self, before: State) -> bool {
        self == State {
            clients: self.clients,
            data_sources: self.data_sources,
            data_offers: self.data_offers,
            drag: self.drag,
            selection: self.selection,
            dirty: self.dirty,
            ..before
        }
    }

    /// The same, and what is dragged is what was, or nothing, and clients offer
    /// what they did, or less.
    pub open spec fn wound_down_since(self, before: State) -> bool {
        &&& self.transfers_since(before)
        &&& self.drag is None || self.drag == before.drag
        &&& self.data_sources == before.data_sources
    }

    /// A state differs from another at most in the memory of clients.
    pub open spec fn memory_since(self, before: State) -> bool {
        self == State {
            buffers: self.buffers,
            shm_pools: self.shm_pools,
            dmabuf_params: self.dmabuf_params,
            pending_dmabuf_imports: self.pending_dmabuf_imports,
            buffer_guards: self.buffer_guards,
            releasing_buffers: self.releasing_buffers,
            retired_images: self.retired_images,
            effects: self.effects,
            ..before
        }
    }

    /// What is known can be listed.
    pub open spec fn finite(self) -> bool {
        &&& self.data_sources.dom().finite()
        &&& self.buffers.dom().finite()
        &&& self.shm_pools.dom().finite()
        &&& self.dmabuf_params.dom().finite()
        &&& self.pending_dmabuf_imports.dom().finite()
    }
}

/// A client's keys are all on its list.
proof fn lemma_client_keys(keys: Set<ClientObjectId>, client_id: u32, k: ClientObjectId)
    requires
        keys.finite(),
    ensures
        table::client_keys(keys, client_id).contains(k) == (keys.contains(k) && k.0 == client_id),
{
    table::lemma_finite_listed(keys);
    seqs::lemma_filter_contains(table::ordered(keys), table::of_client(client_id), k);
}

/// Telling a client what the clipboard holds changes nothing but what clients
/// have been sent and offered.
pub proof fn lemma_selection_told(s: State, client_id: u32)
    ensures
        s.selection_to_client(client_id) == (State {
            clients: s.selection_to_client(client_id).clients,
            data_offers: s.selection_to_client(client_id).data_offers,
            ..s
        }),
{
    let inv = |a: State| a == (State { clients: a.clients, data_offers: a.data_offers, ..s });
    assert forall|a: State, device: u32| inv(a) implies inv(
        #[trigger] wl_data_device::telling_selection(client_id)(a, device),
    ) by {
        match (a.selection, a.next_offer(client_id)) {
            (Some(source), Some(offer)) => {
                let c = a.clients[client_id];
                let told = a.with_client(
                    client_id,
                    c.allocated_with_version(
                        ObjectType::WlDataOffer,
                        c.version(device),
                    ),
                ).with_offer(
                    offer,
                    objects::DataOfferView::fresh(
                        client_id,
                        source,
                        objects::OfferKind::Selection,
                    ),
                ).sent(
                    client_id,
                    wire::told1(device, wl_data_device::DATA_OFFER, offer.1),
                );
                state::lemma_each_keeps(
                    told,
                    a.mime_types_of(source),
                    wl_data_device::telling_mime(offer),
                    inv,
                );
            },
            _ => {},
        }
    }
    state::lemma_each_keeps(
        s,
        s.devices_of(client_id),
        wl_data_device::telling_selection(client_id),
        inv,
    );
}

/// A drag that comes to be over nothing is still the same drag, and nothing but
/// what clients have been sent and offered changes.
pub proof fn lemma_unfocused(s: State)
    ensures
        s.drag_unfocused().transfers_since(s),
        s.drag_unfocused().data_sources == s.data_sources,
        s.drag is None ==> s.drag_unfocused().drag is None,
        s.drag matches Some(d) ==> (s.drag_unfocused().drag matches Some(e) && e.focus is None
            && e.origin_client == d.origin_client && e.source == d.source),
{
    if s.drag is Some && s.drag.unwrap().focus is Some {
        let d = s.drag.unwrap();
        let focus = d.focus.unwrap();
        let start = State {
            drag: Some(objects::DragView { focus: None, focus_offers: Seq::empty(), ..d }),
            ..s
        };
        let inv = |a: State|
            a.transfers_since(s) && a.drag == start.drag && a.data_sources == s.data_sources;
        state::lemma_each_keeps(
            start,
            start.devices_of(focus.0),
            transfer::device_leaving(focus.0),
            inv,
        );
        let left = state::each(
            start,
            start.devices_of(focus.0),
            transfer::device_leaving(focus.0),
        );
        state::lemma_each_keeps(left, d.focus_offers, transfer::withdrawing(), inv);
    }
}

/// A drag that is cancelled is gone, and nothing but what clients have been sent
/// and offered changes.
pub proof fn lemma_cancelled(s: State, notify: bool)
    ensures
        s.drag_cancelled(notify).wound_down_since(s),
        s.drag_cancelled(notify).drag is None,
{
    lemma_unfocused(s);
}

/// Retiring a source takes it out, and touches neither another nor anything but
/// transfers.
proof fn lemma_retired(s: State, source: ClientObjectId)
    ensures
        s.source_retired(source, false).transfers_since(s),
        s.source_retired(source, false).data_sources == s.data_sources.remove(source),
        s.source_retired(source, false).drag is None || s.source_retired(source, false).drag
            == s.drag,
{
    let s1 = State { data_sources: s.data_sources.remove(source), ..s };
    lemma_cancelled(s1, false);
    let s2 = if s1.drag matches Some(d) && d.source == Some(source) {
        s1.drag_cancelled(false)
    } else {
        s1
    };
    let s3 = s2.source_orphaned(source);
    let s4 = State { selection: None, ..s3 };
    match s4.focused_surface {
        Some(f) => lemma_selection_told(s4, f.0),
        None => {},
    }
}

/// A client that has nothing to transfer any more offers nothing, is offered
/// nothing, and neither started the drag there may be nor is under it; nothing
/// but transfers has changed, and no other client's sources.
proof fn lemma_transfers_without(s: State, client_id: u32, k: ClientObjectId)
    requires
        s.data_sources.dom().finite(),
    ensures
        s.transfers_without(client_id).transfers_since(s),
        k.0 == client_id ==> !s.transfers_without(client_id).data_sources.contains_key(k)
            && !s.transfers_without(client_id).data_offers.contains_key(k),
        k.0 != client_id ==> s.transfers_without(client_id).data_sources.contains_key(k)
            == s.data_sources.contains_key(k) && s.transfers_without(client_id).data_sources[k]
            == s.data_sources[k],
        s.transfers_without(client_id).drag matches Some(d) ==> d.origin_client != client_id && (
        d.focus matches Some(f) ==> f.0 != client_id),
{
    let s1 = s.drag_without(client_id);
    lemma_unfocused(s);
    lemma_cancelled(s, true);
    let sources = table::client_keys(s1.data_sources.dom(), client_id);
    let inv = |a: State|
        {
            &&& a.transfers_since(s)
            &&& a.drag is None || a.drag == s1.drag
            &&& forall|k: ClientObjectId|
                k.0 != client_id ==> (#[trigger] a.data_sources.contains_key(k)
                    == s.data_sources.contains_key(k) && a.data_sources[k] == s.data_sources[k])
        };
    let there = |a: State| a.data_sources.dom();
    assert forall|a: State, t: ClientObjectId| inv(a) && sources.contains(t) implies inv(
        #[trigger] shell::retiring()(a, t),
    ) && there(shell::retiring()(a, t)).subset_of(there(a).remove(t)) by {
        lemma_retired(a, t);
        lemma_client_keys(s1.data_sources.dom(), client_id, t);
    }
    state::lemma_each_removes(s1, sources, shell::retiring(), there, inv);
    let after = state::each(s1, sources, shell::retiring());
    assert(there(after).contains(k) == after.data_sources.contains_key(k));
    lemma_client_keys(s1.data_sources.dom(), client_id, k);
}

/// Collecting a pool touches nothing but pools and what is to be closed, and no
/// pool but that one.
proof fn lemma_collected(s: State, client_id: u32, pool_id: u32)
    ensures
        s.pool_collected(client_id, pool_id) == (State {
            shm_pools: s.pool_collected(client_id, pool_id).shm_pools,
            effects: s.pool_collected(client_id, pool_id).effects,
            ..s
        }),
        s.pool_collected(client_id, pool_id).shm_pools == s.shm_pools || s.pool_collected(
            client_id,
            pool_id,
        ).shm_pools == s.shm_pools.remove((client_id, pool_id)),
{
}

/// Destroying a buffer takes it out, and touches neither another buffer, nor
/// another client's pools, nor anything but memory.
proof fn lemma_buffer_destroyed(s: State, key: ClientObjectId, k: ClientObjectId)
    ensures
        s.buffer_destroyed(key.0, key.1).memory_since(s),
        s.buffer_destroyed(key.0, key.1).buffers == s.buffers.remove(key),
        s.buffer_destroyed(key.0, key.1).shm_pools.dom().subset_of(s.shm_pools.dom()),
        k.0 != key.0 ==> s.buffer_destroyed(key.0, key.1).shm_pools.contains_key(k)
            == s.shm_pools.contains_key(k) && s.buffer_destroyed(key.0, key.1).shm_pools[k]
            == s.shm_pools[k],
        s.buffer_destroyed(key.0, key.1).dmabuf_params == s.dmabuf_params,
        s.buffer_destroyed(key.0, key.1).pending_dmabuf_imports == s.pending_dmabuf_imports,
{
    buffers::lemma_forgetting_only_moves_memory(s, key);
    let f = s.buffer_forgotten(key);
    let g = State {
        buffer_guards: f.buffer_guards.remove(key),
        releasing_buffers: f.releasing_buffers.remove(key),
        ..f
    };
    if s.buffers.contains_key(key) {
        match s.buffers[key].kind {
            objects::BufferKindView::Shm(b) => lemma_collected(g, key.0, b.pool_id),
            _ => {},
        }
    }
}

/// A pool none of whose buffers is left is gone as soon as its client is done
/// with it.
proof fn lemma_pool_destroyed(s: State, key: ClientObjectId)
    requires
        s.buffers.dom().finite(),
        forall|k: ClientObjectId| k.0 == key.0 ==> !#[trigger] s.buffers.contains_key(k),
    ensures
        s.pool_destroyed(key.0, key.1).memory_since(s),
        s.pool_destroyed(key.0, key.1).shm_pools == s.shm_pools.remove(key),
        s.pool_destroyed(key.0, key.1).buffers == s.buffers,
        s.pool_destroyed(key.0, key.1).dmabuf_params == s.dmabuf_params,
        s.pool_destroyed(key.0, key.1).pending_dmabuf_imports == s.pending_dmabuf_imports,
{
    let dead = State {
        shm_pools: if s.shm_pools.contains_key(key) {
            s.shm_pools.insert(key, objects::ShmPool { dead: true, ..s.shm_pools[key] })
        } else {
            s.shm_pools
        },
        ..s
    };
    table::lemma_finite_listed(s.buffers.dom());
    let keys = table::ordered(s.buffers.dom());
    let p = buffers::in_pool(s.buffers, key.0, key.1);
    assert forall|i: int| 0 <= i < keys.len() implies !p(#[trigger] keys[i]) by {
        assert(keys.contains(keys[i]));
        assert(s.buffers.contains_key(keys[i]));
    }
    seqs::lemma_filter_none(keys, p);
    assert(dead.pool_buffers(key.0, key.1).len() == 0);
    if s.shm_pools.contains_key(key) {
        assert(dead.shm_pools.remove(key) =~= s.shm_pools.remove(key));
    } else {
        assert(s.shm_pools.remove(key) =~= s.shm_pools);
    }
}

/// A client with no memory any more has no buffer, no pool, no buffer under
/// construction and no import under way; nothing but memory has changed, and no
/// other client's buffers or pools.
proof fn lemma_memory_without(s: State, client_id: u32, k: ClientObjectId, token: u64)
    requires
        s.finite(),
    ensures
        s.memory_without(client_id).memory_since(s),
        k.0 == client_id ==> !s.memory_without(client_id).buffers.contains_key(k)
            && !s.memory_without(client_id).shm_pools.contains_key(k) && !s.memory_without(
            client_id,
        ).dmabuf_params.contains_key(k),
        k.0 != client_id ==> s.memory_without(client_id).buffers.contains_key(k)
            == s.buffers.contains_key(k) && s.memory_without(client_id).buffers[k] == s.buffers[k]
            && s.memory_without(client_id).shm_pools.contains_key(k) == s.shm_pools.contains_key(k)
            && s.memory_without(client_id).shm_pools[k] == s.shm_pools[k],
        s.memory_without(client_id).pending_dmabuf_imports.contains_key(token)
            ==> s.memory_without(client_id).pending_dmabuf_imports[token].client_id != client_id,
{
    let imports = s.imports_of(client_id, None);
    let inv1 = |a: State|
        {
            &&& a.memory_since(s)
            &&& a.buffers == s.buffers
            &&& a.shm_pools == s.shm_pools
            &&& a.dmabuf_params == s.dmabuf_params
            &&& a.pending_dmabuf_imports.submap_of(s.pending_dmabuf_imports)
        };
    let there1 = |a: State| a.pending_dmabuf_imports.dom();
    assert forall|a: State, t: u64| inv1(a) && imports.contains(t) implies inv1(
        #[trigger] params::cancelling()(a, t),
    ) && there1(params::cancelling()(a, t)).subset_of(there1(a).remove(t)) by {
        if a.pending_dmabuf_imports.contains_key(t) {
            buffers::lemma_letting_go_only_closes(
                State { pending_dmabuf_imports: a.pending_dmabuf_imports.remove(t), ..a },
                buffers::plane_fds(a.pending_dmabuf_imports[t].image.planes),
            );
        }
    }
    state::lemma_each_removes(s, imports, params::cancelling(), there1, inv1);
    let s1 = s.imports_cancelled(client_id, None);
    table::lemma_finite_listed(s.pending_dmabuf_imports.dom());
    seqs::lemma_filter_contains(
        table::ordered(s.pending_dmabuf_imports.dom()),
        params::import_of(s.pending_dmabuf_imports, client_id, None),
        token,
    );
    assert(there1(s1).contains(token) == s1.pending_dmabuf_imports.contains_key(token));
    let under = table::client_keys(s1.dmabuf_params.dom(), client_id);
    let inv2 = |a: State|
        {
            &&& a.memory_since(s)
            &&& a.buffers == s.buffers
            &&& a.shm_pools == s.shm_pools
            &&& a.pending_dmabuf_imports == s1.pending_dmabuf_imports
        };
    let there2 = |a: State| a.dmabuf_params.dom();
    assert forall|a: State, t: ClientObjectId| inv2(a) && under.contains(t) implies inv2(
        #[trigger] params::removing_params()(a, t),
    ) && there2(params::removing_params()(a, t)).subset_of(there2(a).remove(t)) by {
        if a.dmabuf_params.contains_key(t) {
            buffers::lemma_letting_go_only_closes(
                State { dmabuf_params: a.dmabuf_params.remove(t), ..a },
                buffers::params_fds(a.dmabuf_params[t]),
            );
        }
    }
    state::lemma_each_removes(s1, under, params::removing_params(), there2, inv2);
    let s2 = state::each(s1, under, params::removing_params());
    lemma_client_keys(s1.dmabuf_params.dom(), client_id, k);
    assert(there2(s2).contains(k) == s2.dmabuf_params.contains_key(k));
    lemma_pools_and_buffers_without(s2, client_id, k);
}

proof fn lemma_pools_and_buffers_without(s: State, client_id: u32, k: ClientObjectId)
    requires
        s.buffers.dom().finite(),
        s.shm_pools.dom().finite(),
    ensures
        ({
            let b = state::each(
                s,
                table::client_keys(s.buffers.dom(), client_id),
                shell::destroying_buffer(),
            );
            let r = state::each(
                b,
                table::client_keys(b.shm_pools.dom(), client_id),
                shell::destroying_pool(),
            );
            &&& r.memory_since(s)
            &&& r.dmabuf_params == s.dmabuf_params
            &&& r.pending_dmabuf_imports == s.pending_dmabuf_imports
            &&& k.0 == client_id ==> !r.buffers.contains_key(k) && !r.shm_pools.contains_key(k)
            &&& k.0 != client_id ==> r.buffers.contains_key(k) == s.buffers.contains_key(k)
                && r.buffers[k] == s.buffers[k] && r.shm_pools.contains_key(k)
                == s.shm_pools.contains_key(k) && r.shm_pools[k] == s.shm_pools[k]
        }),
{
    let mine = table::client_keys(s.buffers.dom(), client_id);
    let inv3 = |a: State|
        {
            &&& a.memory_since(s)
            &&& a.dmabuf_params == s.dmabuf_params
            &&& a.pending_dmabuf_imports == s.pending_dmabuf_imports
            &&& a.shm_pools.dom().subset_of(s.shm_pools.dom())
            &&& a.buffers.dom().subset_of(s.buffers.dom())
            &&& k.0 != client_id ==> a.buffers.contains_key(k) == s.buffers.contains_key(k)
                && a.buffers[k] == s.buffers[k] && a.shm_pools.contains_key(k)
                == s.shm_pools.contains_key(k) && a.shm_pools[k] == s.shm_pools[k]
        };
    let there3 = |a: State| a.buffers.dom();
    assert forall|a: State, t: ClientObjectId| inv3(a) && mine.contains(t) implies inv3(
        #[trigger] shell::destroying_buffer()(a, t),
    ) && there3(shell::destroying_buffer()(a, t)).subset_of(there3(a).remove(t)) by {
        lemma_client_keys(s.buffers.dom(), client_id, t);
        lemma_buffer_destroyed(a, t, k);
    }
    state::lemma_each_removes(s, mine, shell::destroying_buffer(), there3, inv3);
    let b = state::each(s, mine, shell::destroying_buffer());
    assert forall|t: ClientObjectId| t.0 == client_id implies !#[trigger] b.buffers.contains_key(
        t,
    ) by {
        lemma_client_keys(s.buffers.dom(), client_id, t);
        assert(there3(b).contains(t) == b.buffers.contains_key(t));
    }
    vstd::set_lib::lemma_len_subset(b.buffers.dom(), s.buffers.dom());
    vstd::set_lib::lemma_len_subset(b.shm_pools.dom(), s.shm_pools.dom());
    let pools = table::client_keys(b.shm_pools.dom(), client_id);
    let inv4 = |a: State|
        {
            &&& a.memory_since(s)
            &&& a.dmabuf_params == s.dmabuf_params
            &&& a.pending_dmabuf_imports == s.pending_dmabuf_imports
            &&& a.buffers == b.buffers
            &&& k.0 != client_id ==> a.shm_pools.contains_key(k) == s.shm_pools.contains_key(k)
                && a.shm_pools[k] == s.shm_pools[k]
        };
    let there4 = |a: State| a.shm_pools.dom();
    assert forall|a: State, t: ClientObjectId| inv4(a) && pools.contains(t) implies inv4(
        #[trigger] shell::destroying_pool()(a, t),
    ) && there4(shell::destroying_pool()(a, t)).subset_of(there4(a).remove(t)) by {
        lemma_client_keys(b.shm_pools.dom(), client_id, t);
        lemma_pool_destroyed(a, t);
    }
    state::lemma_each_removes(b, pools, shell::destroying_pool(), there4, inv4);
    let r = state::each(b, pools, shell::destroying_pool());
    lemma_client_keys(b.shm_pools.dom(), client_id, k);
    assert(there4(r).contains(k) == r.shm_pools.contains_key(k));
}

impl State {
    /// A client has something under this name.
    pub open spec fn has_something(self, k: ClientObjectId) -> bool {
        ||| self.surfaces.contains_key(k)
        ||| self.regions.contains_key(k)
        ||| self.buffers.contains_key(k)
        ||| self.shm_pools.contains_key(k)
        ||| self.buffer_guards.contains_key(k)
        ||| self.dmabuf_params.contains_key(k)
        ||| self.xdg_surfaces.contains_key(k)
        ||| self.xdg_toplevels.contains_key(k)
        ||| self.xdg_popups.contains_key(k)
        ||| self.xdg_positioners.contains_key(k)
        ||| self.viewports.contains_key(k)
        ||| self.surface_viewport.contains_key(k)
        ||| self.subsurface_map.contains_key(k)
        ||| self.output_bindings.contains_key(k)
        ||| self.data_sources.contains_key(k)
        ||| self.data_offers.contains_key(k)
        ||| self.cursor_role_surfaces.contains(k)
        ||| self.dnd_icon_surfaces.contains(k)
        ||| self.releasing_buffers.contains(k)
        ||| self.buffers_pending_release.contains(k)
        ||| self.grabbed_popups.contains(k)
        ||| self.workspaces.times(k) > 0
        ||| self.focused_surface == Some(k)
    }
}

/// A client that has gone leaves nothing behind: nothing goes by a name of its,
/// no seat object is its, no import is under way for it, and it neither holds
/// the pointer nor drags nor is dragged over.
pub proof fn law_a_client_that_has_gone_leaves_nothing(
    s: State,
    client_id: u32,
    k: ClientObjectId,
    token: u64,
)
    requires
        s.finite(),
        k.0 == client_id,
    ensures
        !s.client_forgotten(client_id).has_something(k),
        objects::objects_of(s.client_forgotten(client_id).pointers, client_id).len() == 0,
        objects::objects_of(s.client_forgotten(client_id).keyboards, client_id).len() == 0,
        objects::objects_of(s.client_forgotten(client_id).touches, client_id).len() == 0,
        objects::objects_of(s.client_forgotten(client_id).data_devices, client_id).len() == 0,
        s.client_forgotten(client_id).pending_dmabuf_imports.contains_key(token)
            ==> s.client_forgotten(client_id).pending_dmabuf_imports[token].client_id != client_id,
        s.client_forgotten(client_id).pointer_grab matches Some(g) ==> g.surface.0 != client_id,
        s.client_forgotten(client_id).drag matches Some(d) ==> d.origin_client != client_id,
{
    let t = s.transfers_without(client_id);
    let m = t.memory_without(client_id);
    let f = s.client_forgotten(client_id);
    lemma_transfers_without(s, client_id, k);
    lemma_finite_after(s, client_id);
    lemma_memory_without(t, client_id, k, token);
    lemma_nothing_bound(m.pointers, client_id);
    lemma_nothing_bound(m.keyboards, client_id);
    lemma_nothing_bound(m.touches, client_id);
    lemma_nothing_bound(m.data_devices, client_id);
    workspace::law_client_removed(m.workspaces, client_id, k);
    seqs::lemma_filter_contains(m.grabbed_popups, workspace::of_others(client_id), k);
    seqs::lemma_filter_contains(m.buffers_pending_release, workspace::of_others(client_id), k);
    assert(f.data_sources == t.data_sources && f.data_offers == t.data_offers);
    assert(f.drag == t.drag);
}

/// What a name stands for is the same in two maps.
pub open spec fn kept<T>(
    before: Map<ClientObjectId, T>,
    after: Map<ClientObjectId, T>,
    k: ClientObjectId,
) -> bool {
    &&& after.contains_key(k) == before.contains_key(k)
    &&& before.contains_key(k) ==> after[k] == before[k]
}

/// A client that has gone takes nothing of anybody else's along.
pub proof fn law_a_client_that_has_gone_takes_nothing_along(
    s: State,
    client_id: u32,
    k: ClientObjectId,
)
    requires
        s.finite(),
        k.0 != client_id,
    ensures
        kept(s.surfaces, s.client_forgotten(client_id).surfaces, k),
        kept(s.buffers, s.client_forgotten(client_id).buffers, k),
        kept(s.shm_pools, s.client_forgotten(client_id).shm_pools, k),
        kept(s.xdg_toplevels, s.client_forgotten(client_id).xdg_toplevels, k),
        kept(s.data_sources, s.client_forgotten(client_id).data_sources, k),
        s.client_forgotten(client_id).workspaces.times(k) == s.workspaces.times(k),
        s.focused_surface == Some(k) ==> s.client_forgotten(client_id).focused_surface == Some(k),
{
    let t = s.transfers_without(client_id);
    let m = t.memory_without(client_id);
    lemma_transfers_without(s, client_id, k);
    lemma_finite_after(s, client_id);
    lemma_memory_without(t, client_id, k, 0);
    workspace::law_client_removed(m.workspaces, client_id, k);
    assert(m.surfaces == s.surfaces && m.xdg_toplevels == s.xdg_toplevels);
    assert(m.workspaces == s.workspaces && m.focused_surface == s.focused_surface);
}

/// What can be listed can still be once a client's transfers are over.
proof fn lemma_finite_after(s: State, client_id: u32)
    requires
        s.finite(),
    ensures
        s.transfers_without(client_id).finite(),
{
    let t = s.transfers_without(client_id);
    lemma_transfers_without(s, client_id, (client_id, 0));
    assert forall|k: ClientObjectId| #[trigger] t.data_sources.dom().contains(k) implies
        s.data_sources.dom().contains(k) by {
        lemma_transfers_without(s, client_id, k);
    }
    vstd::set_lib::lemma_len_subset(t.data_sources.dom(), s.data_sources.dom());
}

/// Once a client's objects have been taken out, none of them is found.
proof fn lemma_nothing_bound<B: objects::Binding>(bindings: Seq<B>, client_id: u32)
    ensures
        objects::objects_of(bindings.filter(objects::not_of(client_id)), client_id).len() == 0,
{
    seqs::lemma_filter_passes(bindings, objects::not_of::<B>(client_id));
    let rest = bindings.filter(objects::not_of::<B>(client_id));
    assert forall|i: int| 0 <= i < rest.len() implies (#[trigger] rest[i]).owner()
        != client_id by {
        assert(objects::not_of::<B>(client_id)(rest[i]));
    }
    lemma_nothing_found(rest, client_id);
}

proof fn lemma_nothing_found<B: objects::Binding>(bindings: Seq<B>, client_id: u32)
    requires
        forall|i: int| 0 <= i < bindings.len() ==> (#[trigger] bindings[i]).owner() != client_id,
    ensures
        objects::objects_of(bindings, client_id).len() == 0,
    decreases bindings.len(),
{
    if bindings.len() > 0 {
        let rest = bindings.drop_last();
        assert forall|i: int| 0 <= i < rest.len() implies (#[trigger] rest[i]).owner()
            != client_id by {
            assert(rest[i] == bindings[i]);
        }
        lemma_nothing_found(rest, client_id);
        assert(bindings[bindings.len() - 1].owner() != client_id);
    }
}

} // verus!

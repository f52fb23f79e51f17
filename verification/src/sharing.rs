//! What clients hear of each other's data: what is on the clipboard or being
//! dragged, in which forms it is to be had, and who is to write it where.

use crate::client::ObjectType;
use crate::departure;
use crate::drags;
use crate::heard;
use crate::objects::OfferKind;
use crate::protocol::{wl_data_device, wl_data_offer, wl_data_source};
use crate::state::{self, State};
use crate::wire::{self, Fd, Message, Request};
use crate::workspace::ClientObjectId;
use vstd::prelude::*;

verus! {

/// What an offer is told of one mime type.
spec fn mime_words(offer: u32) -> spec_fn(u32, Seq<char>) -> Seq<Message> {
    |serial: u32, mime_type: Seq<char>|
        seq![wire::event(offer, wl_data_offer::OFFER, Seq::empty() + wire::string_bytes(mime_type))]
}

/// What has been said names an offer and then everything that is behind it.
pub open spec fn introduces(said: Seq<Message>, device: u32, offer: u32, types: Seq<Seq<char>>) -> bool {
    &&& said.len() >= 1 + types.len()
    &&& heard::says(said[0], device, 0, seq![offer])
    &&& forall|i: int|
        0 <= i < types.len() ==> names_type(#[trigger] said[1 + i], offer, types[i])
}

/// A message tells an offer of a mime type: it is the offer's first event, and
/// the text in it is the mime type.
pub open spec fn names_type(m: Message, offer: u32, mime_type: Seq<char>) -> bool {
    &&& m.object_id == offer
    &&& m.op_code == 0
    &&& m.fds.len() == 0
    &&& heard::spells(m, 0, mime_type)
    &&& m.args.len() == wire::string_bytes(mime_type).len()
}

/// An offer of a source that is made to a client is introduced to it: the device
/// names it, and then it is told of each mime type of the source, in order. The
/// name is one the client has not had, and stands for an offer of the source.
pub proof fn law_an_offer_names_everything_behind_it(
    s: State,
    client: u32,
    device: u32,
    source: ClientObjectId,
    kind: OfferKind,
    offer: ClientObjectId,
)
    requires
        s.data_sources.contains_key(source),
        s.next_offer(client) == Some(offer),
        heard::ready(s, client, 1 + s.data_sources[source].mime_types.len()),
        forall|i: int|
            0 <= i < s.data_sources[source].mime_types.len() ==> wire::writable(
                #[trigger] s.data_sources[source].mime_types[i],
            ),
    ensures
        ({
            let t = s.offer_made(client, device, source, kind);
            let types = s.data_sources[source].mime_types;
            let said = heard::heard(s, t, client);
            &&& said.len() == 1 + types.len()
            &&& introduces(said, device, offer.1, types)
            &&& offer.0 == client
            &&& offer.1 == s.clients[client].next_server_id
            &&& t.clients[client].next_server_id == offer.1 + 1
            &&& t.clients[client].objects[offer.1] == ObjectType::WlDataOffer
            &&& t.clients[client].version(offer.1) == s.clients[client].version(device)
            &&& t.knows(client) && t.clients[client].open
            &&& t.clients[client].outbox == s.clients[client].outbox + said
            &&& t.clients[client].room == s.clients[client].room - 1 - types.len()
            &&& t.data_offers.contains_key(offer)
            &&& t.data_offers[offer].source == Some(source)
            &&& t.data_offers[offer].kind == kind
            &&& t.data_offers[offer].accepted is None
            &&& t.next_serial == s.next_serial
            &&& forall|other: u32|
                other != client ==> #[trigger] t.knows(other) == s.knows(other)
                    && t.clients[other] == s.clients[other]
        }),
{
    let t = s.offer_made(client, device, source, kind);
    let types = s.data_sources[source].mime_types;
    let c = s.clients[client];
    let a = s.with_client(
        client,
        c.allocated_with_version(ObjectType::WlDataOffer, c.version(device)),
    ).with_offer(offer, crate::objects::DataOfferView::fresh(client, source, kind));
    let first = wire::told1(device, wl_data_device::DATA_OFFER, offer.1);
    let b = a.sent(client, first);
    let f = wl_data_device::telling_mime(offer);
    let g = mime_words(offer.1);
    assert(t == state::each(b, types, f));
    heard::lemma_sent(a, client, first);
    assert forall|x: State, m: Seq<char>|
        heard::ready(x, client, g(x.next_serial, m).len()) && heard::only_told(b, x)
            && heard::same_client(b, x, client) implies heard::told(
        x,
        #[trigger] f(x, m),
        client,
        g(x.next_serial, m),
        0,
    ) && heard::only_told(x, f(x, m)) by {
        heard::lemma_sent(x, client, g(x.next_serial, m)[0]);
        assert(seq![g(x.next_serial, m)[0]] =~= g(x.next_serial, m));
    }
    heard::lemma_chorus_len(types, b.next_serial, 0, 1, g);
    heard::lemma_each_told(b, client, types, f, 0, g);
    let rest = heard::chorus(types, b.next_serial, 0, g);
    assert(0 * types.len() == 0);
    heard::lemma_told_both(a, b, t, client, seq![first], rest, 0, 0);
    heard::lemma_told_heard(a, t, client, seq![first] + rest, 0);
    let said = heard::heard(s, t, client);
    assert(said == seq![first] + rest);
    heard::lemma_told_words(device, wl_data_device::DATA_OFFER, offer.1, 0, 0, 0, 0, 0);
    assert forall|i: int| 0 <= i < types.len() implies names_type(
        #[trigger] said[1 + i],
        offer.1,
        types[i],
    ) by {
        heard::lemma_chorus(types, b.next_serial, 0, 1, g, i as nat, 0);
        let m = rest[i];
        assert(said[1 + i] == m);
        assert(wire::writable(types[i]));
        assert(m.args =~= Seq::<u8>::empty() + wire::string_bytes(types[i]) + Seq::<u8>::empty());
        heard::lemma_spells(m, Seq::empty(), types[i], Seq::empty());
    }
    heard::lemma_serials_add(s.next_serial, 0, 0);
    assert forall|other: u32| other != client implies #[trigger] t.knows(other) == s.knows(other)
        && t.clients[other] == s.clients[other] by {
        assert(t.knows(other) == a.knows(other));
    }
}

/// A device of a client is told what the clipboard holds: an offer of it is
/// introduced, with every mime type it is to be had in, and then said to be the
/// selection. Where the clipboard holds nothing, nothing is the selection.
pub proof fn law_the_clipboard_is_told_as_it_is(s: State, client: u32, device: u32)
    requires
        heard::ready(s, client, 1),
        s.selection matches Some(source) ==> {
            &&& s.data_sources.contains_key(source)
            &&& s.next_offer(client) is Some
            &&& heard::ready(s, client, 2 + s.data_sources[source].mime_types.len())
            &&& forall|i: int|
                0 <= i < s.data_sources[source].mime_types.len() ==> wire::writable(
                    #[trigger] s.data_sources[source].mime_types[i],
                )
        },
    ensures
        ({
            let t = s.selection_to_device(client, device);
            let said = heard::heard(s, t, client);
            match s.selection {
                Some(source) => {
                    let types = s.data_sources[source].mime_types;
                    let offer = s.next_offer(client).unwrap();
                    &&& said.len() == 2 + types.len()
                    &&& introduces(said, device, offer.1, types)
                    &&& heard::says(said.last(), device, 5, seq![offer.1])
                    &&& t.data_offers[offer].source == Some(source)
                },
                None => said.len() == 1 && heard::says(said[0], device, 5, seq![0u32]),
            }
        }),
{
    let t = s.selection_to_device(client, device);
    match s.selection {
        Some(source) => {
            let offer = s.next_offer(client).unwrap();
            let types = s.data_sources[source].mime_types;
            law_an_offer_names_everything_behind_it(
                s,
                client,
                device,
                source,
                OfferKind::Selection,
                offer,
            );
            let a = s.offer_made(client, device, source, OfferKind::Selection);
            let m = wire::told1(device, wl_data_device::SELECTION, offer.1);
            heard::lemma_told_words(device, wl_data_device::SELECTION, offer.1, 0, 0, 0, 0, 0);
            assert(a.knows(client));
            let before = s.clients[client].outbox;
            let middle = a.clients[client].outbox;
            let said = heard::heard(s, a, client);
            assert(t.clients[client].outbox == middle.push(m));
            assert(heard::heard(s, t, client) =~= said.push(m));
            assert forall|i: int| 0 <= i < types.len() implies names_type(
                #[trigger] heard::heard(s, t, client)[1 + i],
                offer.1,
                types[i],
            ) by {
                assert(names_type(said[1 + i], offer.1, types[i]));
            }
        },
        None => {
            let m = wire::told1(device, wl_data_device::SELECTION, 0);
            heard::lemma_one_heard(s, t, client, m);
            heard::lemma_told_words(device, wl_data_device::SELECTION, 0, 0, 0, 0, 0, 0);
        },
    }
}

/// A client that asks for an offer's data has the descriptor it hands over
/// passed on to the client the data is from: with the mime type that was asked
/// for, to the source behind the offer, and to nobody else. That a source can
/// produce the mime type is what decides it; otherwise nobody is told anything
/// and the descriptor is closed.
pub proof fn law_data_is_asked_of_whoever_has_it(s: State, r: Request, fd: Fd, mime_type: Seq<char>, n: nat)
    requires
        r.op == 1,
        wire::string_at(r.args, 0) == Some((mime_type, n)),
        wire::writable(mime_type),
        s.data_offers.contains_key(r.key()),
        s.data_offers[r.key()].source matches Some(source) && s.data_sources.contains_key(source)
            && heard::ready(s, source.0, 1),
    ensures
        ({
            let t = s.wl_data_offer_handled(r, seq![fd]);
            let source = s.data_offers[r.key()].source.unwrap();
            if s.data_sources[source].mime_types.contains(mime_type) {
                let said = heard::heard(s, t, source.0);
                &&& said.len() == 1
                &&& said[0].object_id == source.1 && said[0].op_code == 1
                &&& heard::spells(said[0], 0, mime_type)
                &&& said[0].fds == seq![fd]
                &&& t.effects == s.effects
                &&& forall|other: u32|
                    other != source.0 ==> #[trigger] t.knows(other) == s.knows(other)
                        && t.clients[other] == s.clients[other]
            } else {
                t.clients == s.clients && t.effects == s.effects.push(state::EffectView::Close(fd))
            }
        }),
{
    let t = s.wl_data_offer_handled(r, seq![fd]);
    let source = s.data_offers[r.key()].source.unwrap();
    let fds = seq![fd];
    assert(fds.skip(1) =~= Seq::empty());
    assert(fds.drop_last() =~= Seq::empty());
    assert(s.source_producing(r.key(), mime_type) == if s.data_sources[source].mime_types.contains(
        mime_type,
    ) {
        Some(source)
    } else {
        None
    });
    if s.data_sources[source].mime_types.contains(mime_type) {
        let m = Message {
            object_id: source.1,
            op_code: wl_data_source::SEND,
            args: Seq::empty() + wire::string_bytes(mime_type),
            fds: Seq::empty().push(fd),
        };
        assert(t == s.source_asked(source, mime_type, fd).all_closed(Seq::empty()));
        assert(t == s.sent(source.0, m));
        heard::lemma_one_heard(s, t, source.0, m);
        assert(m.args =~= Seq::<u8>::empty() + wire::string_bytes(mime_type) + Seq::<u8>::empty());
        heard::lemma_spells(m, Seq::empty(), mime_type, Seq::empty());
        assert(m.fds =~= fds);
    } else {
        assert(t == s.all_closed(fds));
        assert(state::each(s, Seq::empty(), state::closing()) == s);
        assert(t == s.closed(fd));
    }
}

/// What a device is told of a drag that moves.
spec fn drag_words(time: u32, x: i32, y: i32) -> spec_fn(u32, u32) -> Seq<Message> {
    |serial: u32, device: u32|
        seq![
            wire::told3(
                device,
                wl_data_device::MOTION,
                time,
                wire::signed_word(x),
                wire::signed_word(y),
            ),
        ]
}

/// A drag that moves over the surface it is over is told to every device of the
/// surface's client, in turn: the time, and how far right and how far down of the
/// corner of the surface the pointer is, in 256ths of a pixel.
pub proof fn law_a_drag_is_told_where_it_is(s: State, time: u32, i: nat)
    requires
        s.drag matches Some(drag) && s.drag_hit() matches Some(h) && drag.focus == Some(h.surface),
        i < s.devices_of(s.drag_hit().unwrap().surface.0).len(),
        heard::ready(
            s,
            s.drag_hit().unwrap().surface.0,
            s.devices_of(s.drag_hit().unwrap().surface.0).len(),
        ),
        i32::MIN <= s.cursor_x - 256 * s.drag_hit().unwrap().surface_x <= i32::MAX,
        i32::MIN <= s.cursor_y - 256 * s.drag_hit().unwrap().surface_y <= i32::MAX,
    ensures
        ({
            let t = s.drag_driven(time);
            let h = s.drag_hit().unwrap();
            let said = heard::heard(s, t, h.surface.0);
            let m = said[i as int];
            &&& said.len() == s.devices_of(h.surface.0).len()
            &&& m.object_id == s.devices_of(h.surface.0)[i as int] && m.op_code == 3
                && m.args.len() == 12
            &&& heard::reads(m, 0, time)
            &&& heard::reads_signed(m, 1, s.cursor_x - 256 * h.surface_x)
            &&& heard::reads_signed(m, 2, s.cursor_y - 256 * h.surface_y)
        }),
{
    let h = s.drag_hit().unwrap();
    let client = h.surface.0;
    let u = s.dirtied();
    let devices = u.devices_of(client);
    assert(devices == s.devices_of(client));
    let (x, y) = (wire::local(s.cursor_x, h.surface_x), wire::local(s.cursor_y, h.surface_y));
    let f = drags::drag_moving(client, time, x, y);
    let g = drag_words(time, x, y);
    let t = state::each(u, devices, f);
    assert(s.drag_driven(time) == t);
    assert forall|a: State, o: u32|
        heard::ready(a, client, g(a.next_serial, o).len()) && heard::only_told(u, a)
            && heard::same_client(u, a, client) implies heard::told(
        a,
        #[trigger] f(a, o),
        client,
        g(a.next_serial, o),
        0,
    ) && heard::only_told(a, f(a, o)) by {
        heard::lemma_sent(a, client, g(a.next_serial, o)[0]);
        assert(seq![g(a.next_serial, o)[0]] =~= g(a.next_serial, o));
    }
    heard::lemma_chorus_len(devices, u.next_serial, 0, 1, g);
    heard::lemma_each_told(u, client, devices, f, 0, g);
    heard::lemma_told_heard(u, t, client, heard::chorus(devices, u.next_serial, 0, g), 0 * devices.len());
    heard::lemma_chorus(devices, u.next_serial, 0, 1, g, i, 0);
    let o = devices[i as int];
    let (b, c) = (wire::signed_word(x), wire::signed_word(y));
    let m = wire::told3(o, wl_data_device::MOTION, time, b, c);
    heard::lemma_told_words(o, wl_data_device::MOTION, time, b, c, 0, 0, 0);
    let words = seq![time, b, c];
    heard::lemma_said(m, o, wl_data_device::MOTION, words);
    assert(heard::reads(m, 0, words[0]) && heard::reads(m, 1, words[1]) && heard::reads(
        m,
        2,
        words[2],
    ));
    heard::lemma_signed_word(m, 1, x);
    heard::lemma_signed_word(m, 2, y);
}

/// A device that is told of a drag over a surface is told which surface it is,
/// how far right and how far down of its corner the drag is, and what is offered.
pub proof fn law_a_drag_is_told_where_it_enters(
    s: State,
    client: u32,
    device: u32,
    surface: u32,
    x: i32,
    y: i32,
    offer: Option<u32>,
)
    requires
        heard::ready(s, client, 1),
    ensures
        ({
            let said = heard::heard(
                s,
                s.device_entered(client, device, surface, x, y, offer),
                client,
            );
            let m = said[0];
            &&& said.len() == 1
            &&& m.object_id == device && m.op_code == 1 && m.args.len() == 20
            &&& heard::reads(m, 0, s.next_serial)
            &&& heard::reads(m, 1, surface)
            &&& heard::reads_signed(m, 2, x as int)
            &&& heard::reads_signed(m, 3, y as int)
            &&& heard::reads(
                m,
                4,
                match offer {
                    Some(id) => id,
                    None => 0,
                },
            )
        }),
{
    let id = match offer {
        Some(id) => id,
        None => 0,
    };
    let (a, b) = (wire::signed_word(x), wire::signed_word(y));
    let m = wire::told5(device, wl_data_device::ENTER, s.next_serial, surface, a, b, id);
    heard::lemma_told_words(device, wl_data_device::ENTER, s.next_serial, surface, a, b, id, 0);
    heard::lemma_one_heard(s, s.device_entered(client, device, surface, x, y, offer), client, m);
    let words = seq![s.next_serial, surface, a, b, id];
    heard::lemma_said(m, device, wl_data_device::ENTER, words);
    assert(heard::reads(m, 0, words[0]) && heard::reads(m, 1, words[1]) && heard::reads(
        m,
        2,
        words[2],
    ) && heard::reads(m, 3, words[3]) && heard::reads(m, 4, words[4]));
    heard::lemma_signed_word(m, 2, x);
    heard::lemma_signed_word(m, 3, y);
}

/// A source that is given a mime type to offer offers it from then on, behind
/// those it offered already, and each only once.
pub proof fn law_a_source_offers_what_it_is_told_to(s: State, r: Request, mime_type: Seq<char>, n: nat)
    requires
        r.op == 0,
        wire::string_at(r.args, 0) == Some((mime_type, n)),
        s.data_sources.contains_key(r.key()),
    ensures
        ({
            let before = s.data_sources[r.key()].mime_types;
            let after = s.wl_data_source_handled(r).data_sources[r.key()].mime_types;
            &&& after.contains(mime_type)
            &&& after == before || after == before.push(mime_type)
            &&& before.no_duplicates() ==> after.no_duplicates()
        }),
{
    let before = s.data_sources[r.key()].mime_types;
    let after = s.wl_data_source_handled(r).data_sources[r.key()].mime_types;
    if !before.contains(mime_type) {
        assert(after[after.len() - 1] == mime_type);
    }
}

/// What is put on the clipboard is there. A source that was there before is told
/// that it is not any more; nobody else is told anything where nobody has the
/// focus.
pub proof fn law_the_clipboard_holds_what_was_put_there(
    s: State,
    selection: Option<ClientObjectId>,
    before: ClientObjectId,
)
    ensures
        s.selection_set(selection).selection == selection,
        s.focused_surface is None && s.selection == selection ==> s.selection_set(selection).clients
            == s.clients,
        s.focused_surface is None && s.selection == Some(before) && selection != Some(before)
            && heard::ready(s, before.0, 1) ==> ({
            let said = heard::heard(s, s.selection_set(selection), before.0);
            said.len() == 1 && heard::says(said[0], before.1, 2, Seq::empty())
        }),
{
    let u = match s.selection {
        Some(was) if s.selection != selection => s.source_orphaned(was).source_cancelled(was),
        _ => s,
    };
    let v = State { selection, ..u };
    assert(s.selection_set(selection) == v.selection_announced());
    if let Some(f) = v.focused_surface {
        departure::lemma_selection_told(v, f.0);
    }
    heard::lemma_told_words(before.1, wl_data_source::CANCELLED, 0, 0, 0, 0, 0, 0);
    if s.focused_surface is None && s.selection == Some(before) && selection != Some(before)
        && heard::ready(s, before.0, 1) {
        heard::lemma_one_heard(
            s,
            s.selection_set(selection),
            before.0,
            wire::told0(before.1, wl_data_source::CANCELLED),
        );
    }
}

} // verus!

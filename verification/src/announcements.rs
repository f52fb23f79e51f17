//! What clients are told of displays, windows, frames and what there is to bind.

use crate::client::{self, ObjectType};
use crate::frames;
use crate::heard;
use crate::objects::SeatState;
use crate::protocol::{
    wl_callback, wl_output, wl_registry, wl_seat, wl_surface, wp_presentation_feedback,
    xdg_surface, xdg_toplevel, zwp_linux_dmabuf,
};
use crate::shared::{OutputId, OutputMode, OutputView, PresentedAt};
use crate::state::{self, State};
use crate::wire::{self, Message};
use crate::workspace::ClientObjectId;
use vstd::prelude::*;

verus! {

/// A message is `wl_output.geometry`, and describes an output: where it is, how
/// large, how its pixels are made up, who made it and what it is, and which way
/// round it is.
#[verifier::opaque]
pub open spec fn describes(m: Message, object: u32, o: OutputView) -> bool {
    let make_len = wire::string_bytes(o.make).len() as int;
    let model_len = wire::string_bytes(o.model).len() as int;
    &&& m.object_id == object && m.op_code == 0 && m.fds.len() == 0
    &&& heard::reads_signed(m, 0, o.x as int)
    &&& heard::reads_signed(m, 1, o.y as int)
    &&& heard::reads_signed(m, 2, o.width as int)
    &&& heard::reads_signed(m, 3, o.height as int)
    &&& heard::reads(m, 4, o.subpixel.number())
    &&& heard::spells(m, 20, o.make)
    &&& heard::spells(m, 20 + make_len, o.model)
    &&& wire::word_at(m.args, 20 + make_len + model_len) == Some(o.transform.number())
    &&& m.args.len() == 24 + make_len + model_len
}

/// Bytes one after another, however they are put together.
proof fn lemma_regrouped(a: Seq<u8>, b: Seq<u8>, c: Seq<u8>, d: Seq<u8>)
    ensures
        a + b + c + d == a + (b + c + d),
        a + b + c + d == a + b + (c + d),
        a + b + c + d == (a + b + c) + d + Seq::<u8>::empty(),
        Seq::<u8>::empty() + a + b + c == a + b + c,
        Seq::<u8>::empty() + a + b + c == Seq::<u8>::empty() + a + (b + c),
        a + b + c == (a + b) + c + Seq::<u8>::empty(),
        a + Seq::<u8>::empty() == a,
        Seq::<u8>::empty() + a + Seq::<u8>::empty() == Seq::<u8>::empty() + a,
{
    assert(a + b + c + d =~= a + (b + c + d));
    assert(a + b + c + d =~= a + b + (c + d));
    assert(a + b + c + d =~= (a + b + c) + d + Seq::<u8>::empty());
    assert(Seq::<u8>::empty() + a + b + c =~= a + b + c);
    assert(Seq::<u8>::empty() + a + b + c =~= Seq::<u8>::empty() + a + (b + c));
    assert(a + b + c =~= (a + b) + c + Seq::<u8>::empty());
    assert(a + Seq::<u8>::empty() =~= a);
    assert(Seq::<u8>::empty() + a + Seq::<u8>::empty() =~= Seq::<u8>::empty() + a);
}

/// Five words at the front.
proof fn lemma_five_words(a: u32, b: u32, c: u32, d: u32, e: u32)
    ensures
        wire::words_bytes(seq![a, b, c, d, e]) == Seq::empty() + wire::le_bytes(a)
            + wire::le_bytes(b) + wire::le_bytes(c) + wire::le_bytes(d) + wire::le_bytes(e),
{
    reveal_with_fuel(wire::words_bytes, 2);
    let (w1, w2, w3, w4, w5) = (
        seq![a],
        seq![a, b],
        seq![a, b, c],
        seq![a, b, c, d],
        seq![a, b, c, d, e],
    );
    assert(w1.drop_last() =~= Seq::empty());
    assert(w2.drop_last() =~= w1);
    assert(w3.drop_last() =~= w2);
    assert(w4.drop_last() =~= w3);
    assert(w5.drop_last() =~= w4);
    assert(w1.last() == a && w2.last() == b && w3.last() == c && w4.last() == d && w5.last() == e);
    assert(wire::words_bytes(w1) == Seq::empty() + wire::le_bytes(a));
    assert(wire::words_bytes(w2) == wire::words_bytes(w1) + wire::le_bytes(b));
    assert(wire::words_bytes(w3) == wire::words_bytes(w2) + wire::le_bytes(c));
    assert(wire::words_bytes(w4) == wire::words_bytes(w3) + wire::le_bytes(d));
    assert(wire::words_bytes(w5) == wire::words_bytes(w4) + wire::le_bytes(e));
}

#[verifier::spinoff_prover]
#[verifier::rlimit(40)]
proof fn lemma_geometry(object: u32, o: OutputView)
    requires
        wire::writable(o.make),
        wire::writable(o.model),
    ensures
        describes(wl_output::geometry_event(object, o), object, o),
{
    reveal(describes);
    let m = wl_output::geometry_event(object, o);
    let (a, b, c, d, e) = (
        wire::signed_word(o.x),
        wire::signed_word(o.y),
        wire::signed_word(o.width),
        wire::signed_word(o.height),
        o.subpixel.number(),
    );
    let words = seq![a, b, c, d, e];
    let make = wire::string_bytes(o.make);
    let model = wire::string_bytes(o.model);
    let turn = wire::le_bytes(o.transform.number());
    let front = wire::words_bytes(words);
    lemma_five_words(a, b, c, d, e);
    assert(m.args == front + make + model + turn);
    lemma_regrouped(front, make, model, turn);
    heard::lemma_words_read(words, make + model + turn);
    assert(wire::word_at(m.args, 0) == Some(words[0]));
    assert(wire::word_at(m.args, 4) == Some(words[1]));
    assert(wire::word_at(m.args, 8) == Some(words[2]));
    assert(wire::word_at(m.args, 12) == Some(words[3]));
    assert(wire::word_at(m.args, 16) == Some(words[4]));
    heard::lemma_signed_word(m, 0, o.x);
    heard::lemma_signed_word(m, 1, o.y);
    heard::lemma_signed_word(m, 2, o.width);
    heard::lemma_signed_word(m, 3, o.height);
    heard::lemma_spells(m, front, o.make, model + turn);
    heard::lemma_spells(m, front + make, o.model, turn);
    heard::lemma_word_there(front + make + model, o.transform.number(), Seq::empty());
}

/// What a `wl_output` is told of one mode.
spec fn mode_words(object: u32) -> spec_fn(u32, OutputMode) -> Seq<Message> {
    |serial: u32, m: OutputMode|
        seq![
            wire::told4(
                object,
                wl_output::MODE,
                m.flags,
                wire::signed_word(m.width),
                wire::signed_word(m.height),
                wire::signed_word(m.refresh_mhz),
            ),
        ]
}

/// A message is `wl_output.mode`, and gives a mode of an output.
#[verifier::opaque]
pub open spec fn gives_mode(m: Message, object: u32, mode: OutputMode) -> bool {
    &&& m.object_id == object && m.op_code == 1 && m.args.len() == 16
    &&& heard::reads(m, 0, mode.flags)
    &&& heard::reads_signed(m, 1, mode.width as int)
    &&& heard::reads_signed(m, 2, mode.height as int)
    &&& heard::reads_signed(m, 3, mode.refresh_mhz as int)
}

/// Text alone in a message.
proof fn lemma_text_alone(object: u32, op: u16, text: Seq<char>)
    requires
        wire::writable(text),
    ensures
        heard::spells(
            wire::event(object, op, Seq::empty() + wire::string_bytes(text)),
            0,
            text,
        ),
{
    let bytes = wire::string_bytes(text);
    lemma_regrouped(bytes, Seq::empty(), Seq::empty(), Seq::empty());
    heard::lemma_spells(
        wire::event(object, op, Seq::empty() + bytes),
        Seq::empty(),
        text,
        Seq::empty(),
    );
}

/// A client that has bound a display is told all of it: what and where it is,
/// then each of its modes in order, how finely to draw on it, what it is called
/// and how it is described, and that this was all.
#[verifier::spinoff_prover]
#[verifier::rlimit(60)]
pub proof fn law_an_output_is_told_as_it_is(s: State, key: ClientObjectId, id: OutputId, o: OutputView)
    requires
        s.output(id) == Some(o),
        heard::ready(s, key.0, 5 + o.modes.len()),
        s.clients[key.0].version(key.1) >= 4,
        wire::writable(o.make) && wire::writable(o.model),
        wire::writable(o.name) && wire::writable(o.description),
    ensures
        ({
            let n = o.modes.len() as int;
            let said = heard::heard(s, s.output_told(key, id), key.0);
            &&& said.len() == 5 + n
            &&& describes(said[0], key.1, o)
            &&& forall|i: int|
                0 <= i < n ==> gives_mode(#[trigger] said[1 + i], key.1, o.modes[i])
            &&& said[1 + n].object_id == key.1 && said[1 + n].op_code == 3
                && heard::reads_signed(said[1 + n], 0, o.scale as int)
            &&& said[2 + n].object_id == key.1 && said[2 + n].op_code == 4 && heard::spells(
                said[2 + n],
                0,
                o.name,
            )
            &&& said[3 + n].object_id == key.1 && said[3 + n].op_code == 5 && heard::spells(
                said[3 + n],
                0,
                o.description,
            )
            &&& heard::says(said[4 + n], key.1, 2, Seq::empty())
        }),
{
    let client = key.0;
    let n = o.modes.len() as int;
    let t = s.output_told(key, id);
    let first = wl_output::geometry_event(key.1, o);
    lemma_geometry(key.1, o);
    let a = s.sent(client, first);
    heard::lemma_sent(s, client, first);
    let f = wl_output::telling_mode(key);
    let g = mode_words(key.1);
    assert forall|x: State, m: OutputMode|
        heard::ready(x, client, g(x.next_serial, m).len()) && heard::only_told(a, x)
            && heard::same_client(a, x, client) implies heard::told(
        x,
        #[trigger] f(x, m),
        client,
        g(x.next_serial, m),
        0,
    ) && heard::only_told(x, f(x, m)) by {
        heard::lemma_sent(x, client, g(x.next_serial, m)[0]);
        assert(seq![g(x.next_serial, m)[0]] =~= g(x.next_serial, m));
    }
    heard::lemma_chorus_len(o.modes, a.next_serial, 0, 1, g);
    heard::lemma_each_told(a, client, o.modes, f, 0, g);
    let modes = heard::chorus(o.modes, a.next_serial, 0, g);
    let b = state::each(a, o.modes, f);
    assert(0 * o.modes.len() == 0);
    heard::lemma_told_both(s, a, b, client, seq![first], modes, 0, 0);
    let sc = wire::told1(key.1, wl_output::SCALE, wire::signed_word(o.scale));
    let na = wire::event(
        key.1,
        wl_output::NAME,
        Seq::empty() + wire::string_bytes(o.name),
    );
    let de = wire::event(
        key.1,
        wl_output::DESCRIPTION,
        Seq::empty() + wire::string_bytes(o.description),
    );
    let dn = wire::told0(key.1, wl_output::DONE);
    assert(b.clients[client].version(key.1) >= 4);
    let c = b.scale_told(key, o);
    assert(c == b.sent(client, sc));
    let d = c.name_told(key, o);
    assert(d == c.sent(client, na).sent(client, de));
    assert(t == d.sent(client, dn));
    heard::lemma_sent(b, client, sc);
    heard::lemma_sent(c, client, na);
    heard::lemma_sent(c.sent(client, na), client, de);
    heard::lemma_sent(d, client, dn);
    heard::lemma_told_both(c, c.sent(client, na), d, client, seq![na], seq![de], 0, 0);
    heard::lemma_told_both(b, c, d, client, seq![sc], seq![na] + seq![de], 0, 0);
    heard::lemma_told_both(b, d, t, client, seq![sc] + (seq![na] + seq![de]), seq![dn], 0, 0);
    let tail = seq![sc] + (seq![na] + seq![de]) + seq![dn];
    heard::lemma_told_both(s, b, t, client, seq![first] + modes, tail, 0, 0);
    heard::lemma_told_heard(s, t, client, seq![first] + modes + tail, 0);
    let said = heard::heard(s, t, client);
    assert(said[0] == first);
    assert forall|i: int| 0 <= i < n implies gives_mode(
        #[trigger] said[1 + i],
        key.1,
        o.modes[i],
    ) by {
        reveal(gives_mode);
        heard::lemma_chorus(o.modes, a.next_serial, 0, 1, g, i as nat, 0);
        let m = modes[i];
        assert(said[1 + i] == m);
        let mode = o.modes[i];
        let (x, y, z) = (
            wire::signed_word(mode.width),
            wire::signed_word(mode.height),
            wire::signed_word(mode.refresh_mhz),
        );
        heard::lemma_told_words(key.1, wl_output::MODE, mode.flags, x, y, z, 0, 0);
        let words = seq![mode.flags, x, y, z];
        heard::lemma_said(m, key.1, wl_output::MODE, words);
        assert(heard::reads(m, 0, words[0]) && heard::reads(m, 1, words[1]) && heard::reads(
            m,
            2,
            words[2],
        ) && heard::reads(m, 3, words[3]));
        heard::lemma_signed_word(m, 1, mode.width);
        heard::lemma_signed_word(m, 2, mode.height);
        heard::lemma_signed_word(m, 3, mode.refresh_mhz);
    }
    assert(said[1 + n] == sc && said[2 + n] == na && said[3 + n] == de && said[4 + n] == dn);
    heard::lemma_told_words(key.1, wl_output::SCALE, wire::signed_word(o.scale), 0, 0, 0, 0, 0);
    heard::lemma_told_words(key.1, wl_output::DONE, 0, 0, 0, 0, 0, 0);
    let one = seq![wire::signed_word(o.scale)];
    heard::lemma_said(sc, key.1, wl_output::SCALE, one);
    assert(heard::reads(sc, 0, one[0]));
    heard::lemma_signed_word(sc, 0, o.scale);
    lemma_text_alone(key.1, wl_output::NAME, o.name);
    lemma_text_alone(key.1, wl_output::DESCRIPTION, o.description);
}

/// What the seat can do is told in bits: the first if there is a pointer, the
/// second if there is a keyboard, the third if there is a touchscreen.
pub proof fn law_the_seat_says_what_it_has(seat: SeatState)
    ensures
        seat.flags() & 1 == (if seat.has_pointer {
            1u32
        } else {
            0
        }),
        seat.flags() & 2 == (if seat.has_keyboard {
            2u32
        } else {
            0
        }),
        seat.flags() & 4 == (if seat.has_touch {
            4u32
        } else {
            0
        }),
        seat.flags() < 8,
{
    let f = seat.flags();
    assert(0u32 & 1 == 0 && 0u32 & 2 == 0 && 0u32 & 4 == 0 && 1u32 & 1 == 1 && 1u32 & 2 == 0 && 1u32
        & 4 == 0 && 2u32 & 1 == 0 && 2u32 & 2 == 2 && 2u32 & 4 == 0 && 3u32 & 1 == 1 && 3u32 & 2
        == 2 && 3u32 & 4 == 0 && 4u32 & 1 == 0 && 4u32 & 2 == 0 && 4u32 & 4 == 4 && 5u32 & 1 == 1
        && 5u32 & 2 == 0 && 5u32 & 4 == 4 && 6u32 & 1 == 0 && 6u32 & 2 == 2 && 6u32 & 4 == 4 && 7u32
        & 1 == 1 && 7u32 & 2 == 2 && 7u32 & 4 == 4) by (bit_vector);
}

/// A client that has a seat is told what the seat can do.
pub proof fn law_the_seat_is_told_as_it_is(s: State, client: u32, seat: u32)
    requires
        heard::ready(s, client, 2),
    ensures
        ({
            let said = heard::heard(s, s.seat_told(client, seat), client);
            &&& said.len() == 2
            &&& heard::says(said[0], seat, 0, seq![s.seat.flags()])
            &&& said[1].object_id == seat && said[1].op_code == 1
        }),
{
    let a = wire::told1(seat, wl_seat::CAPABILITIES, s.seat.flags());
    let b = wire::event(
        seat,
        wl_seat::NAME,
        Seq::empty() + wire::string_bytes("default"@),
    );
    heard::lemma_told_words(seat, wl_seat::CAPABILITIES, s.seat.flags(), 0, 0, 0, 0, 0);
    let before = s.clients[client].outbox;
    let t = s.seat_told(client, seat);
    assert(t.clients[client].outbox == before.push(a).push(b));
    assert(before.push(a).push(b).skip(before.len() as int) =~= seq![a, b]);
}

/// A callback is answered with what it is answered with, and its id given back.
pub proof fn law_a_callback_is_answered(s: State, client: u32, callback: u32, data: u32)
    requires
        heard::ready(s, client, 2),
        !client::server_id(callback),
    ensures
        ({
            let t = s.callback_done(client, callback, data);
            let said = heard::heard(s, t, client);
            &&& said.len() == 2
            &&& heard::says(said[0], callback, 0, seq![data])
            &&& heard::says(said[1], 1, 1, seq![callback])
            &&& !t.clients[client].objects.contains_key(callback)
        }),
{
    let a = wire::told1(callback, wl_callback::DONE, data);
    let b = client::delete_id_event(callback);
    heard::lemma_told_words(callback, wl_callback::DONE, data, 0, 0, 0, 0, 0);
    heard::lemma_told_words(1, 1, callback, 0, 0, 0, 0, 0);
    assert(Seq::<u8>::empty() + wire::le_bytes(callback) =~= wire::le_bytes(callback));
    assert(b == wire::told1(1, 1, callback));
    let before = s.clients[client].outbox;
    let t = s.callback_done(client, callback, data);
    assert(t.clients[client].outbox == before.push(a).push(b));
    assert(before.push(a).push(b).skip(before.len() as int) =~= seq![a, b]);
}

/// A feedback is told when its frame reached the screen: the seconds in two
/// words, the upper one first, and the nanoseconds. Where the frame never did, it
/// is told just that.
pub proof fn law_a_presentation_is_told_when_it_was(
    s: State,
    key: ClientObjectId,
    at: Option<PresentedAt>,
)
    requires
        heard::ready(s, key.0, 2),
        at matches Some(a) ==> 0 <= a.tv_sec <= u32::MAX && 0 <= a.tv_nsec <= u32::MAX,
    ensures
        ({
            let said = heard::heard(s, s.feedback_told(key, at), key.0);
            &&& said.len() >= 1
            &&& match at {
                Some(a) => {
                    &&& said[0].object_id == key.1 && said[0].op_code == 1
                        && said[0].args.len() == 28
                    &&& heard::reads(said[0], 0, 0)
                    &&& heard::reads(said[0], 1, a.tv_sec as u32)
                    &&& heard::reads(said[0], 2, a.tv_nsec as u32)
                },
                None => heard::says(said[0], key.1, 2, Seq::empty()),
            }
            &&& !s.feedback_told(key, at).clients[key.0].objects.contains_key(key.1)
        }),
{
    let m = match at {
        Some(a) => frames::presented_event(key.1, a),
        None => wire::told0(key.1, wp_presentation_feedback::DISCARDED),
    };
    let t = s.feedback_told(key, at);
    let before = s.clients[key.0].outbox;
    let after = t.clients[key.0].outbox;
    assert(after[before.len() as int] == m);
    assert(heard::heard(s, t, key.0)[0] == m);
    match at {
        Some(a) => {
            let w = wire::le_bytes(0u32);
            let high = wire::le_bytes(frames::upper_word(a.tv_sec));
            let low = wire::le_bytes(a.tv_sec as u32);
            let nano = wire::le_bytes(a.tv_nsec as u32);
            let tail = w + w + w + wire::le_bytes(frames::KIND_VSYNC);
            assert(m.args =~= Seq::<u8>::empty() + high + (low + nano + tail));
            heard::lemma_word_there(Seq::empty(), frames::upper_word(a.tv_sec), low + nano + tail);
            assert(m.args =~= high + low + (nano + tail));
            heard::lemma_word_there(high, a.tv_sec as u32, nano + tail);
            assert(m.args =~= (high + low) + nano + tail);
            heard::lemma_word_there(high + low, a.tv_nsec as u32, tail);
        },
        None => {
            heard::lemma_told_words(
                key.1,
                wp_presentation_feedback::DISCARDED,
                0,
                0,
                0,
                0,
                0,
                0,
            );
        },
    }
}

/// A surface that comes to be on an output, or no longer is, is told so by the
/// name the client has for the output.
pub proof fn law_a_surface_is_told_of_its_outputs(s: State, client: u32, surface: u32, output: u32)
    requires
        heard::ready(s, client, 1),
    ensures
        ({
            let came = heard::heard(s, s.surface_entered(client, surface, output), client);
            let went = heard::heard(s, s.surface_left(client, surface, output), client);
            &&& came.len() == 1 && heard::says(came[0], surface, 0, seq![output])
            &&& went.len() == 1 && heard::says(went[0], surface, 1, seq![output])
        }),
{
    heard::lemma_told_words(surface, wl_surface::ENTER, output, 0, 0, 0, 0, 0);
    heard::lemma_told_words(surface, wl_surface::LEAVE, output, 0, 0, 0, 0, 0);
    heard::lemma_one_says(
        s,
        s.surface_entered(client, surface, output),
        client,
        wire::told1(surface, wl_surface::ENTER, output),
        surface,
        0,
        seq![output],
    );
    heard::lemma_one_says(
        s,
        s.surface_left(client, surface, output),
        client,
        wire::told1(surface, wl_surface::LEAVE, output),
        surface,
        1,
        seq![output],
    );
}

/// A buffer that is its client's own again, a window that is to close and a popup
/// that is dismissed are told so, each by the event there is for it.
pub proof fn law_objects_are_told_of_their_end(s: State, client: u32, object: u32)
    requires
        heard::ready(s, client, 1),
    ensures
        ({
            let released = heard::heard(s, s.release_told(client, object), client);
            let closed = heard::heard(s, s.close_told(client, object), client);
            let dismissed = heard::heard(s, s.popup_done_told(client, object), client);
            let cancelled = heard::heard(s, s.source_cancelled((client, object)), client);
            &&& released.len() == 1 && heard::says(released[0], object, 0, Seq::empty())
            &&& closed.len() == 1 && heard::says(closed[0], object, 1, Seq::empty())
            &&& dismissed.len() == 1 && heard::says(dismissed[0], object, 1, Seq::empty())
            &&& cancelled.len() == 1 && heard::says(cancelled[0], object, 2, Seq::empty())
        }),
{
    let e = Seq::<u32>::empty();
    heard::lemma_told_words(object, 0, 0, 0, 0, 0, 0, 0);
    heard::lemma_told_words(object, 1, 0, 0, 0, 0, 0, 0);
    heard::lemma_told_words(object, 2, 0, 0, 0, 0, 0, 0);
    let (a, b, c) = (wire::told0(object, 0), wire::told0(object, 1), wire::told0(object, 2));
    heard::lemma_one_says(s, s.release_told(client, object), client, a, object, 0, e);
    heard::lemma_one_says(s, s.close_told(client, object), client, b, object, 1, e);
    heard::lemma_one_says(s, s.popup_done_told(client, object), client, b, object, 1, e);
    heard::lemma_one_says(s, s.source_cancelled((client, object)), client, c, object, 2, e);
}

/// A message is `xdg_toplevel.configure` with a size and some states.
pub open spec fn configures(m: Message, toplevel: u32, width: i32, height: i32, states: Seq<u32>) -> bool {
    &&& m.object_id == toplevel && m.op_code == 0
    &&& heard::reads_signed(m, 0, width as int)
    &&& heard::reads_signed(m, 1, height as int)
    &&& heard::reads(m, 2, (4 * states.len()) as u32)
    &&& m.args.len() == 12 + 4 * states.len()
    &&& forall|i: int| 0 <= i < states.len() ==> #[trigger] heard::reads(m, 3 + i, states[i])
}

/// A configuration event reads as its size and its states.
proof fn lemma_configures(toplevel: u32, width: i32, height: i32, states: Seq<u32>)
    ensures
        configures(
            xdg_toplevel::configure_event(toplevel, width, height, states),
            toplevel,
            width,
            height,
            states,
        ),
{
    let m = xdg_toplevel::configure_event(toplevel, width, height, states);
    let (a, b, n) = (
        wire::signed_word(width),
        wire::signed_word(height),
        (states.len() * 4) as u32,
    );
    let (w, h, l) = (wire::le_bytes(a), wire::le_bytes(b), wire::le_bytes(n));
    let list = wire::words_bytes(states);
    heard::lemma_words_read(states, Seq::empty());
    assert(list + Seq::<u8>::empty() =~= list);
    assert(m.args =~= Seq::<u8>::empty() + w + (h + l + list));
    heard::lemma_word_there(Seq::empty(), a, h + l + list);
    assert(m.args =~= w + h + (l + list));
    heard::lemma_word_there(w, b, l + list);
    assert(m.args =~= (w + h) + l + list);
    heard::lemma_word_there(w + h, n, list);
    heard::lemma_signed_word(m, 0, width);
    heard::lemma_signed_word(m, 1, height);
    assert forall|i: int| 0 <= i < states.len() implies #[trigger] heard::reads(
        m,
        3 + i,
        states[i],
    ) by {
        assert(wire::word_at(list, 4 * i) == Some(states[i]));
        assert(m.args.subrange(12 + 4 * i, 12 + 4 * i + 4) =~= list.subrange(4 * i, 4 * i + 4));
    }
}

/// The states a window is told it is in are the ones it is in: maximized,
/// fullscreen, being resized, and activated if it is what has the focus.
pub proof fn law_a_window_is_in_the_states_it_is_told(s: State, key: ClientObjectId, value: u32)
    requires
        s.xdg_toplevels.contains_key(key),
    ensures
        s.states_of(key).contains(value) <==> {
            ||| value == 1 && s.xdg_toplevels[key].maximized
            ||| value == 2 && s.xdg_toplevels[key].fullscreen
            ||| value == 3 && (s.pointer_grab matches Some(g) && g.toplevel == key
                && g.kind is Resize)
            ||| value == 4 && s.surface_of_toplevel(key) is Some && s.focused_surface
                == s.surface_of_toplevel(key)
        },
        s.states_of(key).len() <= 4,
{
    let t = s.xdg_toplevels[key];
    let resizing = s.pointer_grab matches Some(g) && g.toplevel == key && g.kind is Resize;
    let activated = s.surface_of_toplevel(key) is Some && s.focused_surface
        == s.surface_of_toplevel(key);
    let a = xdg_toplevel::state_if(t.maximized, 1);
    let b = xdg_toplevel::state_if(t.fullscreen, 2);
    let c = xdg_toplevel::state_if(resizing, 3);
    let d = xdg_toplevel::state_if(activated, 4);
    let all = s.states_of(key);
    assert(all == a + b + c + d);
    if t.maximized {
        assert(all[0] == 1);
    }
    if t.fullscreen {
        assert(all[a.len() as int] == 2);
    }
    if resizing {
        assert(all[(a + b).len() as int] == 3);
    }
    if activated {
        assert(all[(a + b + c).len() as int] == 4);
    }
}

/// A window is asked to adopt a size: it is told the size and the states it is
/// in, and given a serial to acknowledge.
pub proof fn law_a_window_is_told_its_size(s: State, key: ClientObjectId, width: i32, height: i32)
    requires
        s.xdg_toplevels.contains_key(key),
        heard::ready(s, key.0, 3),
        // It knows already how much room there is.
        s.bounds_of(key) is None || s.xdg_toplevels[key].sent_bounds == s.bounds_of(key),
    ensures
        ({
            let said = heard::heard(s, s.toplevel_configured(key, width, height), key.0);
            &&& said.len() == 2
            &&& configures(said[0], key.1, width, height, s.states_of(key))
            &&& heard::says(
                said[1],
                s.xdg_toplevels[key].xdg_surface_id,
                0,
                seq![s.next_serial],
            )
        }),
{
    let xdg = s.xdg_toplevels[key].xdg_surface_id;
    let t = s.toplevel_configured(key, width, height);
    let a = xdg_toplevel::configure_event(key.1, width, height, s.states_of(key));
    let b = wire::told1(xdg, xdg_surface::CONFIGURE, s.next_serial);
    lemma_configures(key.1, width, height, s.states_of(key));
    heard::lemma_told_words(xdg, xdg_surface::CONFIGURE, s.next_serial, 0, 0, 0, 0, 0);
    assert(s.bounds_told(key) == s);
    let before = s.clients[key.0].outbox;
    assert(t.clients[key.0].outbox == before.push(a).push(b));
    assert(before.push(a).push(b).skip(before.len() as int) =~= seq![a, b]);
}

/// What a client is told of one layout.
spec fn layout_words(object: u32, fourcc: u32) -> spec_fn(u32, u64) -> Seq<Message> {
    |serial: u32, m: u64|
        seq![
            wire::told3(
                object,
                zwp_linux_dmabuf::MODIFIER,
                fourcc,
                zwp_linux_dmabuf::high_half(m),
                zwp_linux_dmabuf::low_half(m),
            ),
        ]
}

/// A client that knows of layouts is told each one a format can have, in order,
/// and the implicit one last: the format, and the layout in two words, the upper
/// one first.
pub proof fn law_layouts_are_told_as_they_are(
    s: State,
    client: u32,
    object: u32,
    f: crate::dmabuf::DmabufFormatView,
    i: int,
)
    requires
        s.clients[client].version(object) >= 3,
        heard::ready(s, client, f.modifiers.len() + 1),
        0 <= i <= f.modifiers.len(),
    ensures
        ({
            let said = heard::heard(s, s.format_told(client, object, f), client);
            let layout: u64 = if i < f.modifiers.len() {
                f.modifiers[i]
            } else {
                0x00ff_ffff_ffff_ffff
            };
            &&& said.len() == f.modifiers.len() + 1
            &&& said[i].object_id == object && said[i].op_code == 1 && said[i].args.len() == 12
            &&& heard::reads(said[i], 0, f.fourcc)
            &&& wire::word_at(said[i].args, 4) matches Some(high)
            &&& wire::word_at(said[i].args, 8) matches Some(low)
            &&& high * 0x1_0000_0000 + low == layout
        }),
{
    let all = zwp_linux_dmabuf::advertised(f);
    let t = s.format_told(client, object, f);
    let step = zwp_linux_dmabuf::telling_modifier(client, object, f.fourcc);
    let g = layout_words(object, f.fourcc);
    assert(t == state::each(s, all, step));
    assert forall|x: State, m: u64|
        heard::ready(x, client, g(x.next_serial, m).len()) && heard::only_told(s, x)
            && heard::same_client(s, x, client) implies heard::told(
        x,
        #[trigger] step(x, m),
        client,
        g(x.next_serial, m),
        0,
    ) && heard::only_told(x, step(x, m)) by {
        heard::lemma_sent(x, client, g(x.next_serial, m)[0]);
        assert(seq![g(x.next_serial, m)[0]] =~= g(x.next_serial, m));
    }
    heard::lemma_chorus_len(all, s.next_serial, 0, 1, g);
    heard::lemma_each_told(s, client, all, step, 0, g);
    heard::lemma_told_heard(s, t, client, heard::chorus(all, s.next_serial, 0, g), 0 * all.len());
    heard::lemma_chorus(all, s.next_serial, 0, 1, g, i as nat, 0);
    let layout = all[i];
    let (high, low) = (zwp_linux_dmabuf::high_half(layout), zwp_linux_dmabuf::low_half(layout));
    let m = wire::told3(object, zwp_linux_dmabuf::MODIFIER, f.fourcc, high, low);
    heard::lemma_told_words(object, zwp_linux_dmabuf::MODIFIER, f.fourcc, high, low, 0, 0, 0);
    let words = seq![f.fourcc, high, low];
    heard::lemma_said(m, object, zwp_linux_dmabuf::MODIFIER, words);
    assert(heard::reads(m, 0, words[0]) && heard::reads(m, 1, words[1]) && heard::reads(
        m,
        2,
        words[2],
    ));
}

/// What is told of a global is its name, what it is called and which version
/// there is.
#[verifier::spinoff_prover]
#[verifier::rlimit(40)]
pub proof fn law_a_global_is_told_as_it_is(
    s: State,
    key: ClientObjectId,
    name: u32,
    interface: Seq<char>,
    version: u32,
)
    requires
        heard::ready(s, key.0, 1),
        wire::writable(interface),
    ensures
        ({
            let said = heard::heard(s, s.global_told(key, name, interface, version), key.0);
            &&& said.len() == 1
            &&& said[0].object_id == key.1 && said[0].op_code == 0
            &&& heard::reads(said[0], 0, name)
            &&& heard::spells(said[0], 4, interface)
            &&& wire::word_at(said[0].args, 4 + wire::string_bytes(interface).len() as int) == Some(
                version,
            )
        }),
{
    let m = wl_registry::global_event(key.1, name, interface, version);
    heard::lemma_one_heard(s, s.global_told(key, name, interface, version), key.0, m);
    let (a, b, c) = (
        wire::le_bytes(name),
        wire::string_bytes(interface),
        wire::le_bytes(version),
    );
    assert(m.args == Seq::<u8>::empty() + a + b + c);
    lemma_regrouped(a, b, c, Seq::empty());
    heard::lemma_word_there(Seq::empty(), name, b + c);
    heard::lemma_spells(m, a, interface, c);
    heard::lemma_word_there(a + b, version, Seq::empty());
}

/// Binding one of the globals that are always there gives a client an object of
/// the kind the global is called after, at a version both know.
pub proof fn law_a_global_is_bound_to_what_it_is_called(
    s: State,
    r: wire::Request,
    name: u32,
    version: u32,
    id: u32,
)
    requires
        name < 9,
        s.can_register(r.client, id),
    ensures
        ({
            let c = s.global_bound(r, name, version, id).clients[r.client];
            let kind = c.objects[id];
            &&& c.objects.contains_key(id)
            &&& c.version(id) <= version
            &&& c.version(id) == version || c.version(id) == wl_registry::global_version(
                name as int,
            )
            &&& wl_registry::global_interface(name as int) == match kind {
                ObjectType::WlCompositor => "wl_compositor"@,
                ObjectType::WlSubcompositor => "wl_subcompositor"@,
                ObjectType::WlDataDeviceManager => "wl_data_device_manager"@,
                ObjectType::WlShm => "wl_shm"@,
                ObjectType::WlSeat => "wl_seat"@,
                ObjectType::XdgWmBase => "xdg_wm_base"@,
                ObjectType::XdgSystemBell => "xdg_system_bell_v1"@,
                ObjectType::WpViewporter => "wp_viewporter"@,
                ObjectType::WpPresentation => "wp_presentation"@,
                _ => ""@,
            }
        }),
{
}

} // verus!

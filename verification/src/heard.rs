//! What clients hear.
//!
//! Everything a client is told is a message at the end of its queue. The laws
//! here say what those messages are as their reader finds them: which object
//! speaks, which of its events it is, and what number stands in which place.

use crate::client::ClientView;
use crate::state::{self, State};
use crate::wire::{self, Message};
use vstd::prelude::*;

verus! {

/// A message is a certain event of an object, and has these words in it and
/// nothing else.
#[verifier::opaque]
pub open spec fn says(m: Message, object: u32, op: u16, words: Seq<u32>) -> bool {
    &&& m.object_id == object
    &&& m.op_code == op
    &&& m.fds.len() == 0
    &&& m.args.len() == 4 * words.len()
    &&& forall|i: int| 0 <= i < words.len() ==> #[trigger] reads(m, i, words[i])
}

/// What a message says can be read in it.
pub proof fn lemma_said(m: Message, object: u32, op: u16, words: Seq<u32>)
    requires
        says(m, object, op, words),
    ensures
        m.object_id == object && m.op_code == op && m.fds.len() == 0,
        m.args.len() == 4 * words.len(),
        forall|i: int| 0 <= i < words.len() ==> #[trigger] reads(m, i, words[i]),
{
    reveal(says);
}

/// The word at a place in a message, counted in words.
pub open spec fn reads(m: Message, place: int, word: u32) -> bool {
    wire::word_at(m.args, 4 * place) == Some(word)
}

/// The signed number at a place in a message, counted in words.
pub open spec fn reads_signed(m: Message, place: int, v: int) -> bool {
    wire::signed_at(m.args, 4 * place) matches Some(w) && w == v
}

/// The text at an offset in a message, and that it is taken in whole: the words
/// that follow begin behind it.
#[verifier::opaque]
pub open spec fn spells(m: Message, offset: int, text: Seq<char>) -> bool {
    &&& wire::string_text_at(m.args, offset) == Some(vstd::utf8::encode_utf8(text))
    &&& wire::string_at(m.args, offset) matches Some((_, n)) && n == wire::string_bytes(text).len()
}

/// The serial some number of serials on.
#[verifier::opaque]
pub open spec fn serial_after(serial: u32, n: nat) -> u32 {
    ((serial + n) % 0x1_0000_0000) as u32
}

/// A client is there, and so many more messages can be queued for it.
pub open spec fn ready(s: State, client: u32, n: nat) -> bool {
    &&& s.knows(client)
    &&& s.clients[client].open
    &&& s.clients[client].room >= n
}

/// What a client has been told between two states.
pub open spec fn heard(before: State, after: State, client: u32) -> Seq<Message> {
    after.clients[client].outbox.skip(before.clients[client].outbox.len() as int)
}

/// Between two states a client has been told these things and nobody else
/// anything, so many serials have gone by, and the client has lost nothing.
pub open spec fn told(before: State, after: State, client: u32, said: Seq<Message>, ticks: nat) -> bool {
    let c = before.clients[client];
    &&& before.knows(client)
    &&& c.room >= said.len()
    &&& after.clients == before.clients.insert(
        client,
        ClientView { outbox: c.outbox + said, room: (c.room - said.len()) as u32, ..c },
    )
    &&& after.next_serial == serial_after(before.next_serial, ticks)
}

/// One state is another but for what clients have been told, the serials that
/// took, and which of them may be quoted.
pub open spec fn only_told(before: State, after: State) -> bool {
    after == State {
        clients: after.clients,
        next_serial: after.next_serial,
        input_serials: after.input_serials,
        last_button_serial: after.last_button_serial,
        pointer_enter_serial: after.pointer_enter_serial,
        ..before
    }
}

/// What is said to several objects in turn.
pub open spec fn chorus<T>(
    items: Seq<T>,
    serial: u32,
    ticks: nat,
    g: spec_fn(u32, T) -> Seq<Message>,
) -> Seq<Message>
    decreases items.len(),
{
    if items.len() == 0 {
        Seq::empty()
    } else {
        chorus(items.drop_last(), serial, ticks, g) + g(
            serial_after(serial, ticks * (items.len() - 1) as nat),
            items.last(),
        )
    }
}

/// Serials go by one by one.
pub proof fn lemma_serials_add(serial: u32, a: nat, b: nat)
    ensures
        serial_after(serial_after(serial, a), b) == serial_after(serial, a + b),
        serial_after(serial, 0) == serial,
        serial + a <= u32::MAX ==> serial_after(serial, a) == serial + a,
{
    reveal(serial_after);
    if serial + a <= u32::MAX {
        vstd::arithmetic::div_mod::lemma_small_mod((serial + a) as nat, 0x1_0000_0000);
    }
    vstd::arithmetic::div_mod::lemma_add_mod_noop(
        serial + a,
        b as int,
        0x1_0000_0000,
    );
    vstd::arithmetic::div_mod::lemma_mod_twice(serial + a, 0x1_0000_0000);
    vstd::arithmetic::div_mod::lemma_small_mod(serial as nat, 0x1_0000_0000);
    vstd::arithmetic::div_mod::lemma_add_mod_noop((serial + a) % 0x1_0000_0000, b as int, 0x1_0000_0000);
}

/// A tick is one serial on.
pub proof fn lemma_ticked(s: State)
    ensures
        s.ticked().next_serial == serial_after(s.next_serial, 1),
{
    reveal(serial_after);
    if s.next_serial == u32::MAX {
        assert(0x1_0000_0000int % 0x1_0000_0000 == 0);
    } else {
        vstd::arithmetic::div_mod::lemma_small_mod((s.next_serial + 1) as nat, 0x1_0000_0000);
    }
}

/// Where in what is said to several objects that is which is said to one.
pub proof fn lemma_chorus_part<T>(
    items: Seq<T>,
    serial: u32,
    ticks: nat,
    g: spec_fn(u32, T) -> Seq<Message>,
    i: int,
)
    requires
        0 <= i < items.len(),
    ensures
        ({
            let all = chorus(items, serial, ticks, g);
            let at = chorus(items.take(i), serial, ticks, g).len();
            let part = g(serial_after(serial, (ticks * i) as nat), items[i]);
            &&& at + part.len() <= all.len()
            &&& all.subrange(at as int, (at + part.len()) as int) == part
        }),
    decreases items.len(),
{
    let rest = items.drop_last();
    let part = g(serial_after(serial, (ticks * i) as nat), items[i]);
    let all = chorus(items, serial, ticks, g);
    let at = chorus(items.take(i), serial, ticks, g).len() as int;
    if i < rest.len() {
        assert(rest.take(i) =~= items.take(i));
        lemma_chorus_part(rest, serial, ticks, g, i);
        let before = chorus(rest, serial, ticks, g);
        assert(all.subrange(at, at + part.len()) =~= before.subrange(at, at + part.len()));
    } else {
        assert(rest =~= items.take(i));
        assert(all.subrange(at, at + part.len()) =~= part);
    }
}

/// Where as much is said to each object as to any other.
pub proof fn lemma_chorus_len<T>(
    items: Seq<T>,
    serial: u32,
    ticks: nat,
    k: nat,
    g: spec_fn(u32, T) -> Seq<Message>,
)
    requires
        forall|n: u32, t: T| #[trigger] g(n, t).len() == k,
    ensures
        chorus(items, serial, ticks, g).len() == k * items.len(),
    decreases items.len(),
{
    if items.len() == 0 {
        assert(k * 0 == 0) by (nonlinear_arith);
    } else {
        let n = items.drop_last().len();
        lemma_chorus_len(items.drop_last(), serial, ticks, k, g);
        assert(k * (n + 1) == k * n + k) by (nonlinear_arith);
    }
}

/// Where in what is said to several objects that is which is said to one, if as
/// much is said to each as to any other.
pub proof fn lemma_chorus<T>(
    items: Seq<T>,
    serial: u32,
    ticks: nat,
    k: nat,
    g: spec_fn(u32, T) -> Seq<Message>,
    i: nat,
    j: nat,
)
    requires
        forall|n: u32, t: T| #[trigger] g(n, t).len() == k,
        i < items.len(),
        j < k,
    ensures
        chorus(items, serial, ticks, g).len() == k * items.len(),
        k * i + j < k * items.len(),
        chorus(items, serial, ticks, g)[(k * i + j) as int] == g(
            serial_after(serial, ticks * i),
            items[i as int],
        )[j as int],
{
    lemma_chorus_len(items, serial, ticks, k, g);
    lemma_chorus_len(items.take(i as int), serial, ticks, k, g);
    lemma_chorus_part(items, serial, ticks, g, i as int);
    let all = chorus(items, serial, ticks, g);
    let at = chorus(items.take(i as int), serial, ticks, g).len() as int;
    let part = g(serial_after(serial, ticks * i), items[i as int]);
    assert(part.len() == k);
    assert(all.subrange(at, at + k)[j as int] == all[at + j]);
}

/// Nothing has happened to a client but that it has been told things.
pub open spec fn same_client(before: State, after: State, client: u32) -> bool {
    after.knows(client) && after.clients[client] == (ClientView {
        outbox: after.clients[client].outbox,
        room: after.clients[client].room,
        ..before.clients[client]
    })
}

/// Telling several objects of a client one after another comes to telling each
/// of them what it is told.
pub proof fn lemma_each_told<T>(
    s: State,
    client: u32,
    items: Seq<T>,
    f: spec_fn(State, T) -> State,
    ticks: nat,
    g: spec_fn(u32, T) -> Seq<Message>,
)
    requires
        forall|a: State, t: T|
            ready(a, client, g(a.next_serial, t).len()) && only_told(s, a) && same_client(
                s,
                a,
                client,
            ) ==> told(a, #[trigger] f(a, t), client, g(a.next_serial, t), ticks) && only_told(
                a,
                f(a, t),
            ),
        ready(s, client, chorus(items, s.next_serial, ticks, g).len()),
    ensures
        told(
            s,
            state::each(s, items, f),
            client,
            chorus(items, s.next_serial, ticks, g),
            ticks * items.len(),
        ),
        only_told(s, state::each(s, items, f)),
    decreases items.len(),
{
    if items.len() == 0 {
        lemma_serials_add(s.next_serial, 0, 0);
        assert(ticks * 0 == 0) by (nonlinear_arith);
        let c = s.clients[client];
        assert(c.outbox + Seq::<Message>::empty() =~= c.outbox);
        assert(s.clients.insert(client, c) =~= s.clients);
    } else {
        let rest = items.drop_last();
        let n = rest.len();
        assert(ticks * (n + 1) == ticks * n + ticks) by (nonlinear_arith);
        lemma_each_told(s, client, rest, f, ticks, g);
        let a = state::each(s, rest, f);
        let b = state::each(s, items, f);
        assert(b == f(a, items.last()));
        lemma_serials_add(s.next_serial, ticks * n, ticks);
        let c = s.clients[client];
        let said = chorus(rest, s.next_serial, ticks, g);
        let more = g(a.next_serial, items.last());
        assert(told(a, b, client, more, ticks));
        assert(c.outbox + said + more =~= c.outbox + (said + more));
        assert(b.clients =~= s.clients.insert(
            client,
            ClientView {
                outbox: c.outbox + (said + more),
                room: (c.room - (said + more).len()) as u32,
                ..c
            },
        ));
    }
}

/// One message sent is one thing told.
pub proof fn lemma_sent(s: State, client: u32, m: Message)
    requires
        ready(s, client, 1),
    ensures
        told(s, s.sent(client, m), client, seq![m], 0),
        only_told(s, s.sent(client, m)),
{
    let c = s.clients[client];
    lemma_serials_add(s.next_serial, 0, 0);
    assert(c.outbox.push(m) =~= c.outbox + seq![m]);
}

/// One message sent, and whatever else does not show.
pub proof fn lemma_told_one(a: State, b: State, client: u32, m: Message, ticks: nat)
    requires
        ready(a, client, 1),
        b.clients == a.sent(client, m).clients,
        b.next_serial == serial_after(a.next_serial, ticks),
    ensures
        told(a, b, client, seq![m], ticks),
{
    let c = a.clients[client];
    assert(c.outbox.push(m) =~= c.outbox + seq![m]);
}

/// One thing told after another is both told.
pub proof fn lemma_told_both(
    a: State,
    b: State,
    d: State,
    client: u32,
    first: Seq<Message>,
    then: Seq<Message>,
    ticks: nat,
    more: nat,
)
    requires
        told(a, b, client, first, ticks),
        told(b, d, client, then, more),
    ensures
        told(a, d, client, first + then, ticks + more),
{
    let c = a.clients[client];
    lemma_serials_add(a.next_serial, ticks, more);
    assert(c.outbox + first + then =~= c.outbox + (first + then));
    assert(d.clients =~= a.clients.insert(
        client,
        ClientView {
            outbox: c.outbox + (first + then),
            room: (c.room - (first + then).len()) as u32,
            ..c
        },
    ));
}

/// What has been told has been heard.
pub proof fn lemma_told_heard(a: State, b: State, client: u32, said: Seq<Message>, ticks: nat)
    requires
        told(a, b, client, said, ticks),
    ensures
        heard(a, b, client) == said,
        forall|other: u32|
            other != client ==> #[trigger] b.knows(other) == a.knows(other) && b.clients[other]
                == a.clients[other],
        same_client(a, b, client),
        b.next_serial == serial_after(a.next_serial, ticks),
{
    assert((a.clients[client].outbox + said).skip(a.clients[client].outbox.len() as int) =~= said);
}

/// The word that stands at an offset is read there.
pub proof fn lemma_word_there(before: Seq<u8>, v: u32, after: Seq<u8>)
    ensures
        wire::word_at(before + wire::le_bytes(v) + after, before.len() as int) == Some(v),
{
    let all = before + wire::le_bytes(v) + after;
    assert(all.subrange(before.len() as int, before.len() as int + 4) =~= wire::le_bytes(v));
    wire::law_word_read_back(all, before.len() as int, v);
}

/// The bytes of some words, read as words.
pub proof fn lemma_words_read(words: Seq<u32>, tail: Seq<u8>)
    ensures
        wire::words_bytes(words).len() == 4 * words.len(),
        forall|i: int|
            0 <= i < words.len() ==> wire::word_at(wire::words_bytes(words) + tail, 4 * i) == Some(
                #[trigger] words[i],
            ),
    decreases words.len(),
{
    if words.len() > 0 {
        let rest = words.drop_last();
        let more = wire::le_bytes(words.last()) + tail;
        lemma_words_read(rest, more);
        assert(wire::words_bytes(words) + tail =~= wire::words_bytes(rest) + more);
        assert forall|i: int| 0 <= i < words.len() implies wire::word_at(
            wire::words_bytes(words) + tail,
            4 * i,
        ) == Some(#[trigger] words[i]) by {
            if i < rest.len() {
                assert(rest[i] == words[i]);
            } else {
                lemma_word_there(wire::words_bytes(rest), words.last(), tail);
                assert(wire::words_bytes(words) + tail =~= wire::words_bytes(rest)
                    + wire::le_bytes(words.last()) + tail);
            }
        }
    }
}

/// A message whose arguments are the bytes of some words says those words.
pub proof fn lemma_says(object: u32, op: u16, words: Seq<u32>)
    ensures
        says(wire::event(object, op, wire::words_bytes(words)), object, op, words),
{
    reveal(says);
    lemma_words_read(words, Seq::empty());
    let m = wire::event(object, op, wire::words_bytes(words));
    assert(wire::words_bytes(words) + Seq::<u8>::empty() =~= wire::words_bytes(words));
    assert forall|i: int| 0 <= i < words.len() implies #[trigger] reads(m, i, words[i]) by {
        assert(wire::word_at(m.args, 4 * i) == Some(words[i]));
    }
}

/// The events made of words say them.
pub proof fn lemma_told_words(o: u32, op: u16, a: u32, b: u32, c: u32, d: u32, e: u32, f: u32)
    ensures
        says(wire::told0(o, op), o, op, Seq::empty()),
        says(wire::told1(o, op, a), o, op, seq![a]),
        says(wire::told2(o, op, a, b), o, op, seq![a, b]),
        says(wire::told3(o, op, a, b, c), o, op, seq![a, b, c]),
        says(wire::told4(o, op, a, b, c, d), o, op, seq![a, b, c, d]),
        says(wire::told5(o, op, a, b, c, d, e), o, op, seq![a, b, c, d, e]),
        says(wire::told6(o, op, a, b, c, d, e, f), o, op, seq![a, b, c, d, e, f]),
{
    reveal_with_fuel(wire::words_bytes, 2);
    let w0 = Seq::<u32>::empty();
    let w1 = seq![a];
    let w2 = seq![a, b];
    let w3 = seq![a, b, c];
    let w4 = seq![a, b, c, d];
    let w5 = seq![a, b, c, d, e];
    let w6 = seq![a, b, c, d, e, f];
    assert(w1.drop_last() =~= w0);
    assert(w2.drop_last() =~= w1);
    assert(w3.drop_last() =~= w2);
    assert(w4.drop_last() =~= w3);
    assert(w5.drop_last() =~= w4);
    assert(w6.drop_last() =~= w5);
    lemma_says(o, op, w0);
    lemma_says(o, op, w1);
    lemma_says(o, op, w2);
    lemma_says(o, op, w3);
    lemma_says(o, op, w4);
    lemma_says(o, op, w5);
    lemma_says(o, op, w6);
}

/// A signed number said as a word is read back as the number.
pub proof fn lemma_signed_word(m: Message, place: int, v: i32)
    requires
        reads(m, place, wire::signed_word(v)),
    ensures
        reads_signed(m, place, v as int),
{
    assert((v as u32) as i32 == v) by (bit_vector);
}

/// One message sent is the one heard.
pub proof fn lemma_one_heard(a: State, b: State, client: u32, m: Message)
    requires
        ready(a, client, 1),
        b.clients == a.sent(client, m).clients,
    ensures
        heard(a, b, client) == seq![m],
        forall|other: u32|
            other != client ==> #[trigger] b.knows(other) == a.knows(other) && b.clients[other]
                == a.clients[other],
{
    let before = a.clients[client].outbox;
    assert(before.push(m).skip(before.len() as int) =~= seq![m]);
}

/// Text written down is read where it stands.
pub proof fn lemma_spells(m: Message, before: Seq<u8>, text: Seq<char>, after: Seq<u8>)
    requires
        m.args == before + wire::string_bytes(text) + after,
        wire::writable(text),
    ensures
        spells(m, before.len() as int, text),
{
    reveal(spells);
    let at = before.len() as int;
    assert(m.args.subrange(at, at + wire::string_bytes(text).len()) =~= wire::string_bytes(text));
    wire::law_string_bytes_read_back(m.args, at, text);
}

/// One event made of words is heard as it is said.
pub proof fn lemma_one_says(a: State, b: State, client: u32, m: Message, o: u32, op: u16, words: Seq<u32>)
    requires
        ready(a, client, 1),
        b.clients == a.sent(client, m).clients,
        says(m, o, op, words),
    ensures
        heard(a, b, client).len() == 1,
        says(heard(a, b, client)[0], o, op, words),
{
    lemma_one_heard(a, b, client, m);
}

} // verus!

//! What pointers are told of a scroll, both axes of it.

use crate::heard;
use crate::pointer::{self, Scroll};
use crate::protocol::wl_pointer;
use crate::shared::ScrollSource;
use crate::state::State;
use crate::wire::{self, Message};
use crate::workspace::ClientObjectId;
use vstd::prelude::*;

verus! {

/// What a pointer of a version is told of the clicks of a wheel.
spec fn steps(version: u32, pointer: u32, axis: u32, v120: i32) -> Seq<Message> {
    if v120 == 0 {
        Seq::empty()
    } else if version >= 8 {
        seq![wire::told2(pointer, wl_pointer::AXIS_VALUE120, axis, wire::signed_word(v120))]
    } else if version >= 5 {
        seq![
            wire::told2(
                pointer,
                wl_pointer::AXIS_DISCRETE,
                axis,
                wire::signed_word(wl_pointer::detents(v120 as int) as i32),
            ),
        ]
    } else {
        Seq::empty()
    }
}

/// What a pointer of a version is told of one axis.
spec fn along(version: u32, pointer: u32, time: u32, axis: u32, d: i64, v120: i32) -> Seq<Message> {
    if d == 0 {
        Seq::empty()
    } else {
        steps(version, pointer, axis, v120) + seq![
            wire::told3(
                pointer,
                wl_pointer::AXIS,
                time,
                axis,
                wire::signed_word(pointer::scroll_distance(d)),
            ),
        ]
    }
}

/// What a pointer that knows of groups is told besides.
spec fn detail(version: u32, m: Message) -> Seq<Message> {
    if version >= 5 {
        seq![m]
    } else {
        Seq::empty()
    }
}

spec fn source(pointer: u32, from: ScrollSource) -> Message {
    wire::told1(
        pointer,
        wl_pointer::AXIS_SOURCE,
        match from {
            ScrollSource::Wheel => wl_pointer::AXIS_SOURCE_WHEEL,
            ScrollSource::Finger => wl_pointer::AXIS_SOURCE_FINGER,
        },
    )
}

/// What a pointer of a version is told of a scroll.
#[verifier::opaque]
spec fn scroll_words(version: u32, pointer: u32, time: u32, scroll: Scroll) -> Seq<Message> {
    detail(version, source(pointer, scroll.source)) + along(
        version,
        pointer,
        time,
        0,
        scroll.dy,
        scroll.v120_y,
    ) + along(version, pointer, time, 1, scroll.dx, scroll.v120_x) + detail(
        version,
        wire::told0(pointer, wl_pointer::FRAME),
    )
}

/// What a pointer of a version is told of an axis that no longer moves.
spec fn stops(version: u32, pointer: u32, time: u32, axis: u32, moved: bool) -> Seq<Message> {
    if moved {
        detail(version, wire::told2(pointer, wl_pointer::AXIS_STOP, time, axis))
    } else {
        Seq::empty()
    }
}

/// What a pointer of a version is told of the end of a scroll.
spec fn end_words(
    version: u32,
    pointer: u32,
    time: u32,
    vertical: bool,
    horizontal: bool,
) -> Seq<Message> {
    detail(version, source(pointer, ScrollSource::Finger)) + stops(
        version,
        pointer,
        time,
        0,
        vertical,
    ) + stops(version, pointer, time, 1, horizontal) + detail(
        version,
        wire::told0(pointer, wl_pointer::FRAME),
    )
}

proof fn lemma_silent(s: State, client: u32)
    requires
        heard::ready(s, client, 0),
    ensures
        heard::told(s, s, client, Seq::empty(), 0),
        heard::only_told(s, s),
{
    let c = s.clients[client];
    assert(c.outbox + Seq::<Message>::empty() =~= c.outbox);
    assert(s.clients.insert(client, c) =~= s.clients);
    reveal(heard::serial_after);
    vstd::arithmetic::div_mod::lemma_small_mod(s.next_serial as nat, 0x1_0000_0000);
}

proof fn lemma_detail(s: State, client: u32, pointer: u32, m: Message)
    requires
        heard::ready(s, client, detail(s.clients[client].version(pointer), m).len()),
    ensures
        ({
            let t = if s.speaks(client, pointer, 5) {
                s.sent(client, m)
            } else {
                s
            };
            &&& heard::told(s, t, client, detail(s.clients[client].version(pointer), m), 0)
            &&& heard::only_told(s, t)
        }),
{
    if s.speaks(client, pointer, 5) {
        heard::lemma_sent(s, client, m);
    } else {
        lemma_silent(s, client);
    }
}

proof fn lemma_steps(s: State, client: u32, pointer: u32, axis: u32, v120: i32)
    requires
        heard::ready(s, client, steps(s.clients[client].version(pointer), pointer, axis, v120).len()),
    ensures
        heard::told(
            s,
            s.pointer_stepped(client, pointer, axis, v120),
            client,
            steps(s.clients[client].version(pointer), pointer, axis, v120),
            0,
        ),
        heard::only_told(s, s.pointer_stepped(client, pointer, axis, v120)),
{
    let said = steps(s.clients[client].version(pointer), pointer, axis, v120);
    if said.len() > 0 {
        heard::lemma_sent(s, client, said[0]);
        assert(said =~= seq![said[0]]);
    } else {
        lemma_silent(s, client);
    }
}

proof fn lemma_along(s: State, client: u32, pointer: u32, time: u32, axis: u32, d: i64, v120: i32)
    requires
        heard::ready(
            s,
            client,
            along(s.clients[client].version(pointer), pointer, time, axis, d, v120).len(),
        ),
    ensures
        heard::told(
            s,
            s.axis_told(client, pointer, time, axis, d, v120),
            client,
            along(s.clients[client].version(pointer), pointer, time, axis, d, v120),
            0,
        ),
        heard::only_told(s, s.axis_told(client, pointer, time, axis, d, v120)),
{
    if d == 0 {
        lemma_silent(s, client);
    } else {
        let version = s.clients[client].version(pointer);
        let first = steps(version, pointer, axis, v120);
        let m = wire::told3(
            pointer,
            wl_pointer::AXIS,
            time,
            axis,
            wire::signed_word(pointer::scroll_distance(d)),
        );
        let a = s.pointer_stepped(client, pointer, axis, v120);
        lemma_steps(s, client, pointer, axis, v120);
        heard::lemma_sent(a, client, m);
        heard::lemma_told_both(s, a, a.sent(client, m), client, first, seq![m], 0, 0);
    }
}

/// Four things said one after another.
proof fn lemma_told_four(
    a: State,
    b: State,
    c: State,
    d: State,
    e: State,
    client: u32,
    p: Seq<Message>,
    q: Seq<Message>,
    r: Seq<Message>,
    t: Seq<Message>,
)
    requires
        heard::told(a, b, client, p, 0) && heard::only_told(a, b),
        heard::told(b, c, client, q, 0) && heard::only_told(b, c),
        heard::told(c, d, client, r, 0) && heard::only_told(c, d),
        heard::told(d, e, client, t, 0) && heard::only_told(d, e),
    ensures
        heard::told(a, e, client, p + q + r + t, 0),
        heard::only_told(a, e),
{
    heard::lemma_told_both(a, b, c, client, p, q, 0, 0);
    heard::lemma_told_both(a, c, d, client, p + q, r, 0, 0);
    heard::lemma_told_both(a, d, e, client, p + q + r, t, 0, 0);
}

proof fn lemma_scrolled(s: State, client: u32, pointer: u32, time: u32, scroll: Scroll)
    requires
        heard::ready(
            s,
            client,
            scroll_words(s.clients[client].version(pointer), pointer, time, scroll).len(),
        ),
    ensures
        heard::told(
            s,
            pointer::scrolling(client, time, scroll)(s, pointer),
            client,
            scroll_words(s.clients[client].version(pointer), pointer, time, scroll),
            0,
        ),
        heard::only_told(s, pointer::scrolling(client, time, scroll)(s, pointer)),
{
    reveal(scroll_words);
    let version = s.clients[client].version(pointer);
    let first = source(pointer, scroll.source);
    let last = wire::told0(pointer, wl_pointer::FRAME);
    let b = s.pointer_scroll_sourced(client, pointer, scroll.source);
    let c = b.axis_told(client, pointer, time, 0, scroll.dy, scroll.v120_y);
    let d = c.axis_told(client, pointer, time, 1, scroll.dx, scroll.v120_x);
    let e = d.pointer_framed(client, pointer);
    lemma_detail(s, client, pointer, first);
    lemma_along(b, client, pointer, time, 0, scroll.dy, scroll.v120_y);
    lemma_along(c, client, pointer, time, 1, scroll.dx, scroll.v120_x);
    lemma_detail(d, client, pointer, last);
    lemma_told_four(
        s,
        b,
        c,
        d,
        e,
        client,
        detail(version, first),
        along(version, pointer, time, 0, scroll.dy, scroll.v120_y),
        along(version, pointer, time, 1, scroll.dx, scroll.v120_x),
        detail(version, last),
    );
}

/// A pointer has been told how far a scroll goes along an axis, in 256ths of a
/// pixel, ten pixels for each unit.
pub open spec fn goes(m: Message, pointer: u32, time: u32, axis: u32, d: i64) -> bool {
    &&& m.object_id == pointer && m.op_code == 4
    &&& heard::reads(m, 0, time) && heard::reads(m, 1, axis)
    &&& heard::reads_signed(m, 2, 10 * d)
}

/// A pointer has been told how far a wheel clicked, in 120ths.
pub open spec fn clicks(m: Message, pointer: u32, axis: u32, v120: i32) -> bool {
    &&& m.object_id == pointer && m.op_code == 9
    &&& heard::reads(m, 0, axis) && heard::reads_signed(m, 1, v120 as int)
}

proof fn lemma_goes(pointer: u32, time: u32, axis: u32, d: i64, v120: i32)
    requires
        i32::MIN <= 10 * d <= i32::MAX,
        d != 0,
    ensures
        ({
            let said = along(8, pointer, time, axis, d, v120);
            &&& said.len() == if v120 != 0 {
                2nat
            } else {
                1
            }
            &&& goes(said.last(), pointer, time, axis, d)
            &&& v120 != 0 ==> clicks(said[0], pointer, axis, v120)
        }),
{
    let value = pointer::scroll_distance(d);
    let words = seq![time, axis, wire::signed_word(value)];
    let m = wire::told3(pointer, wl_pointer::AXIS, time, axis, words[2]);
    heard::lemma_told_words(pointer, wl_pointer::AXIS, time, axis, words[2], 0, 0, 0);
    heard::lemma_said(m, pointer, wl_pointer::AXIS, words);
    assert(heard::reads(m, 0, words[0]) && heard::reads(m, 1, words[1]) && heard::reads(
        m,
        2,
        words[2],
    ));
    heard::lemma_signed_word(m, 2, value);
    let two = seq![axis, wire::signed_word(v120)];
    let n = wire::told2(pointer, wl_pointer::AXIS_VALUE120, axis, two[1]);
    heard::lemma_told_words(pointer, wl_pointer::AXIS_VALUE120, axis, two[1], 0, 0, 0, 0);
    heard::lemma_said(n, pointer, wl_pointer::AXIS_VALUE120, two);
    assert(heard::reads(n, 0, two[0]) && heard::reads(n, 1, two[1]));
    heard::lemma_signed_word(n, 1, v120);
}

/// No more is said to several objects than so much for each.
proof fn lemma_chorus_bound(
    items: Seq<u32>,
    serial: u32,
    most: nat,
    g: spec_fn(u32, u32) -> Seq<Message>,
)
    requires
        forall|n: u32, p: u32| (#[trigger] g(n, p)).len() <= most,
    ensures
        heard::chorus(items, serial, 0, g).len() <= most * items.len(),
    decreases items.len(),
{
    if items.len() > 0 {
        lemma_chorus_bound(items.drop_last(), serial, most, g);
        assert(most * (items.len() - 1) + most == most * items.len()) by (nonlinear_arith);
    } else {
        assert(most * items.len() == 0) by (nonlinear_arith)
            requires
                items.len() == 0,
        ;
    }
}

/// Both axes of a scroll are told of, and each as it is: what did the scrolling
/// comes first, then how far it goes up or down, then how far it goes left or
/// right, each only if it goes there and behind how far the wheel clicked that
/// way, and the end of the group comes last.
#[verifier::opaque]
pub open spec fn scroll_heard(said: Seq<Message>, pointer: u32, time: u32, scroll: Scroll) -> bool {
    let stepped = |d: i64, v120: i32|
        if d == 0 {
            0int
        } else if v120 == 0 {
            1
        } else {
            2
        };
    let down = stepped(scroll.dy, scroll.v120_y);
    let across = stepped(scroll.dx, scroll.v120_x);
    &&& said.len() == 2 + down + across
    &&& heard::says(
        said[0],
        pointer,
        6,
        seq![
            if scroll.source == ScrollSource::Finger {
                1u32
            } else {
                0
            },
        ],
    )
    &&& scroll.dy != 0 ==> goes(said[down], pointer, time, 0, scroll.dy)
    &&& scroll.dy != 0 && scroll.v120_y != 0 ==> clicks(said[1], pointer, 0, scroll.v120_y)
    &&& scroll.dx != 0 ==> goes(said[down + across], pointer, time, 1, scroll.dx)
    &&& scroll.dx != 0 && scroll.v120_x != 0 ==> clicks(
        said[1 + down],
        pointer,
        1,
        scroll.v120_x,
    )
    &&& heard::says(said.last(), pointer, 5, Seq::empty())
}

proof fn lemma_scroll_heard(version: u32, pointer: u32, time: u32, scroll: Scroll)
    requires
        version >= 8,
        i32::MIN <= 10 * scroll.dx <= i32::MAX,
        i32::MIN <= 10 * scroll.dy <= i32::MAX,
    ensures
        scroll_heard(scroll_words(version, pointer, time, scroll), pointer, time, scroll),
{
    reveal(scroll_words);
    reveal(scroll_heard);
    let said = scroll_words(version, pointer, time, scroll);
    let down = along(version, pointer, time, 0, scroll.dy, scroll.v120_y);
    let across = along(version, pointer, time, 1, scroll.dx, scroll.v120_x);
    assert(down == along(8, pointer, time, 0, scroll.dy, scroll.v120_y));
    assert(across == along(8, pointer, time, 1, scroll.dx, scroll.v120_x));
    if scroll.dy != 0 {
        lemma_goes(pointer, time, 0, scroll.dy, scroll.v120_y);
        assert(said[down.len() as int] == down.last());
        assert(said[1] == down[0]);
    }
    if scroll.dx != 0 {
        lemma_goes(pointer, time, 1, scroll.dx, scroll.v120_x);
        assert(said[(down.len() + across.len()) as int] == across.last());
        assert(said[1 + down.len() as int] == across[0]);
    }
    let by = if scroll.source == ScrollSource::Finger {
        1u32
    } else {
        0
    };
    heard::lemma_told_words(pointer, wl_pointer::AXIS_SOURCE, by, 0, 0, 0, 0, 0);
    heard::lemma_told_words(pointer, wl_pointer::FRAME, 0, 0, 0, 0, 0, 0);
    assert(said[0] == source(pointer, scroll.source));
    assert(said.last() == wire::told0(pointer, wl_pointer::FRAME));
}

/// Whoever has the pointer is told of a scroll: every pointer of its client, both
/// axes of it.
pub proof fn law_both_axes_of_a_scroll_are_told(
    s: State,
    time: u32,
    scroll: Scroll,
    surface: ClientObjectId,
    i: int,
)
    requires
        s.pointer_surface == Some(surface),
        0 <= i < s.pointers_of(surface.0).len(),
        s.clients[surface.0].version(s.pointers_of(surface.0)[i]) >= 8,
        heard::ready(s, surface.0, 6 * s.pointers_of(surface.0).len()),
        i32::MIN <= 10 * scroll.dx <= i32::MAX,
        i32::MIN <= 10 * scroll.dy <= i32::MAX,
    ensures
        ({
            let t = s.scroll_handled(time, scroll);
            let said = heard::heard(s, t, surface.0);
            let by_touch = scroll.source == ScrollSource::Finger;
            &&& exists|from: int, to: int|
                0 <= from <= to <= said.len() && scroll_heard(
                    #[trigger] said.subrange(from, to),
                    s.pointers_of(surface.0)[i],
                    time,
                    scroll,
                )
            &&& t.scrolling_vertical == (s.scrolling_vertical || by_touch && scroll.dy != 0)
            &&& t.scrolling_horizontal == (s.scrolling_horizontal || by_touch && scroll.dx != 0)
        }),
{
    let client = surface.0;
    let noted = s.scroll_noted(scroll);
    let pointers = s.pointers_of(client);
    let f = pointer::scrolling(client, time, scroll);
    let g = |serial: u32, p: u32| scroll_words(s.clients[client].version(p), p, time, scroll);
    assert forall|a: State, p: u32|
        heard::ready(a, client, g(a.next_serial, p).len()) && heard::only_told(noted, a)
            && heard::same_client(noted, a, client) implies heard::told(
        a,
        #[trigger] f(a, p),
        client,
        g(a.next_serial, p),
        0,
    ) && heard::only_told(a, f(a, p)) by {
        assert(a.clients[client].version(p) == s.clients[client].version(p));
        lemma_scrolled(a, client, p, time, scroll);
    }
    assert forall|n: u32, p: u32| (#[trigger] g(n, p)).len() <= 6 by {
        reveal(scroll_words);
    }
    lemma_chorus_bound(pointers, s.next_serial, 6, g);
    heard::lemma_each_told(noted, client, pointers, f, 0, g);
    let all = heard::chorus(pointers, s.next_serial, 0, g);
    heard::lemma_told_heard(noted, s.scroll_handled(time, scroll), client, all, 0);
    heard::lemma_chorus_part(pointers, s.next_serial, 0, g, i);
    let from = heard::chorus(pointers.take(i), s.next_serial, 0, g).len() as int;
    let part = scroll_words(s.clients[client].version(pointers[i]), pointers[i], time, scroll);
    lemma_scroll_heard(s.clients[client].version(pointers[i]), pointers[i], time, scroll);
    let said = heard::heard(s, s.scroll_handled(time, scroll), client);
    assert(said == all);
    assert(said.subrange(from, from + part.len()) == part);
    assert(scroll_heard(said.subrange(from, from + part.len()), pointers[i], time, scroll));
}

/// The end of a scroll is told of the axes that moved and of no other.
pub open spec fn end_heard(
    said: Seq<Message>,
    pointer: u32,
    time: u32,
    vertical: bool,
    horizontal: bool,
) -> bool {
    let down = if vertical {
        1int
    } else {
        0
    };
    let across = if horizontal {
        1int
    } else {
        0
    };
    &&& said.len() == 2 + down + across
    &&& heard::says(said[0], pointer, 6, seq![1u32])
    &&& vertical ==> heard::says(said[1], pointer, 7, seq![time, 0u32])
    &&& horizontal ==> heard::says(said[1 + down], pointer, 7, seq![time, 1u32])
    &&& heard::says(said.last(), pointer, 5, Seq::empty())
}

proof fn lemma_ended(s: State, client: u32, pointer: u32, time: u32, down: bool, across: bool)
    requires
        heard::ready(
            s,
            client,
            end_words(s.clients[client].version(pointer), pointer, time, down, across).len(),
        ),
    ensures
        heard::told(
            s,
            pointer::scroll_ending(client, time, down, across)(s, pointer),
            client,
            end_words(s.clients[client].version(pointer), pointer, time, down, across),
            0,
        ),
        heard::only_told(s, pointer::scroll_ending(client, time, down, across)(s, pointer)),
{
    let version = s.clients[client].version(pointer);
    let first = source(pointer, ScrollSource::Finger);
    let last = wire::told0(pointer, wl_pointer::FRAME);
    let b = s.pointer_scroll_sourced(client, pointer, ScrollSource::Finger);
    let c = b.axis_stopped(client, pointer, time, 0, down);
    let d = c.axis_stopped(client, pointer, time, 1, across);
    let e = d.pointer_framed(client, pointer);
    lemma_detail(s, client, pointer, first);
    if down {
        lemma_detail(b, client, pointer, wire::told2(pointer, wl_pointer::AXIS_STOP, time, 0));
    } else {
        lemma_silent(b, client);
    }
    if across {
        lemma_detail(c, client, pointer, wire::told2(pointer, wl_pointer::AXIS_STOP, time, 1));
    } else {
        lemma_silent(c, client);
    }
    lemma_detail(d, client, pointer, last);
    lemma_told_four(
        s,
        b,
        c,
        d,
        e,
        client,
        detail(version, first),
        stops(version, pointer, time, 0, down),
        stops(version, pointer, time, 1, across),
        detail(version, last),
    );
}

/// When a touchpad is let go of, whoever has the pointer is told so: every
/// pointer of its client, of each axis that the scroll moved and of no other, and
/// once.
pub proof fn law_the_end_of_a_scroll_is_told(s: State, time: u32, surface: ClientObjectId, i: int)
    requires
        s.pointer_surface == Some(surface),
        s.scrolling_vertical || s.scrolling_horizontal,
        0 <= i < s.pointers_of(surface.0).len(),
        s.clients[surface.0].version(s.pointers_of(surface.0)[i]) >= 5,
        heard::ready(s, surface.0, 4 * s.pointers_of(surface.0).len()),
    ensures
        ({
            let t = s.scroll_end_handled(time);
            let said = heard::heard(s, t, surface.0);
            &&& exists|from: int, to: int|
                0 <= from <= to <= said.len() && end_heard(
                    #[trigger] said.subrange(from, to),
                    s.pointers_of(surface.0)[i],
                    time,
                    s.scrolling_vertical,
                    s.scrolling_horizontal,
                )
            &&& !t.scrolling_vertical && !t.scrolling_horizontal
            &&& heard::heard(t, t.scroll_end_handled(time), surface.0).len() == 0
        }),
{
    let client = surface.0;
    let (down, across) = (s.scrolling_vertical, s.scrolling_horizontal);
    let still = State { scrolling_vertical: false, scrolling_horizontal: false, ..s };
    let pointers = s.pointers_of(client);
    let f = pointer::scroll_ending(client, time, down, across);
    let g = |serial: u32, p: u32| end_words(s.clients[client].version(p), p, time, down, across);
    assert forall|a: State, p: u32|
        heard::ready(a, client, g(a.next_serial, p).len()) && heard::only_told(still, a)
            && heard::same_client(still, a, client) implies heard::told(
        a,
        #[trigger] f(a, p),
        client,
        g(a.next_serial, p),
        0,
    ) && heard::only_told(a, f(a, p)) by {
        assert(a.clients[client].version(p) == s.clients[client].version(p));
        lemma_ended(a, client, p, time, down, across);
    }
    lemma_chorus_bound(pointers, s.next_serial, 4, g);
    heard::lemma_each_told(still, client, pointers, f, 0, g);
    let all = heard::chorus(pointers, s.next_serial, 0, g);
    let t = s.scroll_end_handled(time);
    heard::lemma_told_heard(still, t, client, all, 0);
    heard::lemma_chorus_part(pointers, s.next_serial, 0, g, i);
    let from = heard::chorus(pointers.take(i), s.next_serial, 0, g).len() as int;
    let p = pointers[i];
    let part = end_words(s.clients[client].version(p), p, time, down, across);
    heard::lemma_told_words(p, wl_pointer::AXIS_SOURCE, 1, 0, 0, 0, 0, 0);
    heard::lemma_told_words(p, wl_pointer::AXIS_STOP, time, 0, 0, 0, 0, 0);
    heard::lemma_told_words(p, wl_pointer::AXIS_STOP, time, 1, 0, 0, 0, 0);
    heard::lemma_told_words(p, wl_pointer::FRAME, 0, 0, 0, 0, 0, 0);
    assert(end_heard(part, p, time, down, across));
    let said = heard::heard(s, t, client);
    assert(said == all);
    assert(said.subrange(from, from + part.len()) == part);
    assert(end_heard(said.subrange(from, from + part.len()), p, time, down, across));
    let outbox = t.clients[client].outbox;
    assert(t.scroll_end_handled(time).clients == t.clients);
    assert(outbox.skip(outbox.len() as int).len() == 0);
}

} // verus!

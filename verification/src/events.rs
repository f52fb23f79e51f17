//! What clients hear of keys, fingers and the pointer.
//!
//! The laws say what the messages that input gives rise to have in them, word
//! by word as the client reads them: which key and whether it is down, and where
//! on its surface the client finds a finger or the pointer.

use crate::grabs;
use crate::heard;
use crate::hits::HitResult;
use crate::keys::{self, Modifiers};
use crate::pointer;
use crate::protocol::{wl_keyboard, wl_pointer, wl_touch};
use crate::state::{self, State};
use crate::touch;
use crate::wire::{self, Message};
use crate::workspace::ClientObjectId;
use vstd::prelude::*;

verus! {

/// A serial handed out and a message sent.
proof fn lemma_stamped(a: State, b: State, client: u32, m: Message)
    requires
        heard::ready(a, client, 1),
        b.clients == a.sent(client, m).clients,
        b.next_serial == a.ticked().next_serial,
    ensures
        heard::told(a, b, client, seq![m], 1),
{
    heard::lemma_ticked(a);
    heard::lemma_told_one(a, b, client, m, 1);
}

/// A message sent without a serial.
proof fn lemma_unstamped(a: State, b: State, client: u32, m: Message)
    requires
        heard::ready(a, client, 1),
        b.clients == a.sent(client, m).clients,
        b.next_serial == a.next_serial,
    ensures
        heard::told(a, b, client, seq![m], 0),
{
    heard::lemma_serials_add(a.next_serial, 0, 0);
    heard::lemma_told_one(a, b, client, m, 0);
}

/// What a keyboard is told of a key.
spec fn key_words(time: u32, key: u32, pressed: bool, m: Modifiers) -> spec_fn(u32, u32) -> Seq<Message> {
    |serial: u32, keyboard: u32|
        seq![
            wire::told4(
                keyboard,
                wl_keyboard::KEY,
                serial,
                time,
                key,
                if pressed {
                    1
                } else {
                    0
                },
            ),
            wire::told5(
                keyboard,
                wl_keyboard::MODIFIERS,
                heard::serial_after(serial, 1),
                m.depressed,
                m.latched,
                m.locked,
                m.group,
            ),
        ]
}

proof fn lemma_key_told(s: State, client: u32, time: u32, key: u32, pressed: bool, m: Modifiers)
    requires
        heard::ready(s, client, 2 * s.keyboards_of(client).len()),
    ensures
        ({
            let t = state::each(
                s,
                s.keyboards_of(client),
                keys::typing(client, time, key, pressed, m),
            );
            let said = heard::chorus(
                s.keyboards_of(client),
                s.next_serial,
                2,
                key_words(time, key, pressed, m),
            );
            heard::told(s, t, client, said, 2 * s.keyboards_of(client).len()) && heard::only_told(
                s,
                t,
            )
        }),
{
    let f = keys::typing(client, time, key, pressed, m);
    let g = key_words(time, key, pressed, m);
    assert forall|a: State, t: u32|
        heard::ready(a, client, g(a.next_serial, t).len()) && heard::only_told(s, a)
            && heard::same_client(s, a, client) implies heard::told(
        a,
        #[trigger] f(a, t),
        client,
        g(a.next_serial, t),
        2,
    ) && heard::only_told(a, f(a, t)) by {
        let said = g(a.next_serial, t);
        assert(said.len() == 2);
        let b = a.key_told(client, t, time, key, pressed);
        let c = f(a, t);
        lemma_stamped(a, b, client, said[0]);
        heard::lemma_ticked(a);
        lemma_stamped(b, c, client, said[1]);
        heard::lemma_told_both(a, b, c, client, seq![said[0]], seq![said[1]], 1, 1);
        assert(seq![said[0]] + seq![said[1]] =~= said);
    }
    heard::lemma_chorus_len(s.keyboards_of(client), s.next_serial, 2, 2, g);
    heard::lemma_each_told(s, client, s.keyboards_of(client), f, 2, g);
}

/// A key that is not the compositor's own is noted and told.
proof fn lemma_key_plain(s: State, time: u32, key: u32, pressed: bool, m: Modifiers)
    requires
        key + 8 <= u32::MAX,
        pressed ==> !(key == 1 && s.drag is Some) && !((key == 15 || key == 62) && (
        s.pressed_keys.contains(56) || s.pressed_keys.contains(100))),
        !pressed ==> !s.consumed_keys.contains(key),
    ensures
        s.key_handled(time, (key + 8) as u32, pressed, m) == s.key_noted(
            key,
            pressed,
        ).key_delivered(time, key, pressed, m),
{
    let held = s.key_noted(key, pressed);
    assert(keys::evdev_of((key + 8) as u32) == key);
    if pressed {
        assert(keys::bound(key, held.pressed_keys) is None);
    }
}

/// What is heard of a key.
pub open spec fn key_heard(
    s: State,
    t: State,
    time: u32,
    key: u32,
    pressed: bool,
    m: Modifiers,
    client: u32,
    i: nat,
) -> bool {
    let said = heard::heard(s, t, client);
    let keyboard = s.keyboards_of(client)[i as int];
    let serial = heard::serial_after(s.next_serial, 2 * i);
    &&& said.len() == 2 * s.keyboards_of(client).len()
    &&& heard::says(
        said[(2 * i) as int],
        keyboard,
        3,
        seq![
            serial,
            time,
            key,
            if t.pressed_keys.contains(key) {
                1u32
            } else {
                0
            },
        ],
    )
    &&& heard::says(
        said[(2 * i + 1) as int],
        keyboard,
        4,
        seq![heard::serial_after(serial, 1), m.depressed, m.latched, m.locked, m.group],
    )
    &&& forall|k: u32| #[trigger]
        t.pressed_keys.contains(k) == if k == key {
            pressed
        } else {
            s.pressed_keys.contains(k)
        }
    &&& forall|other: u32|
        other != client ==> #[trigger] t.knows(other) == s.knows(other) && t.clients[other]
            == s.clients[other]
}

proof fn lemma_key_heard(
    s: State,
    held: State,
    t: State,
    time: u32,
    key: u32,
    pressed: bool,
    m: Modifiers,
    client: u32,
    i: nat,
)
    requires
        held == s.key_noted(key, pressed),
        t == state::each(
            held,
            held.keyboards_of(client),
            keys::typing(client, time, key, pressed, m),
        ),
        i < s.keyboards_of(client).len(),
        heard::ready(s, client, 2 * s.keyboards_of(client).len()),
    ensures
        key_heard(s, t, time, key, pressed, m, client, i),
{
    let keyboards = s.keyboards_of(client);
    assert(held.keyboards_of(client) == keyboards);
    lemma_key_told(held, client, time, key, pressed, m);
    let g = key_words(time, key, pressed, m);
    let said = heard::chorus(keyboards, s.next_serial, 2, g);
    heard::lemma_told_heard(held, t, client, said, 2 * keyboards.len());
    heard::lemma_chorus_len(keyboards, s.next_serial, 2, 2, g);
    heard::lemma_chorus(keyboards, s.next_serial, 2, 2, g, i, 0);
    heard::lemma_chorus(keyboards, s.next_serial, 2, 2, g, i, 1);
    let serial = heard::serial_after(s.next_serial, 2 * i);
    let keyboard = keyboards[i as int];
    let down = if pressed {
        1u32
    } else {
        0
    };
    heard::lemma_told_words(keyboard, wl_keyboard::KEY, serial, time, key, down, 0, 0);
    heard::lemma_told_words(
        keyboard,
        wl_keyboard::MODIFIERS,
        heard::serial_after(serial, 1),
        m.depressed,
        m.latched,
        m.locked,
        m.group,
        0,
    );
    assert forall|other: u32| other != client implies #[trigger] t.knows(other) == s.knows(other)
        && t.clients[other] == s.clients[other] by {
        assert(t.knows(other) == held.knows(other));
    }
}

/// A key that is not the compositor's own is told to every keyboard of the
/// client that has the focus, in turn, and the modifiers after it; nobody else
/// is told anything. The key is named, and its state is 1 if it is among those
/// held afterwards and 0 if it is not. What is held afterwards is what was held
/// before, with the key that was pressed or without the one that was let go of.
pub proof fn law_a_key_is_told_as_it_is(
    s: State,
    time: u32,
    key: u32,
    pressed: bool,
    m: Modifiers,
    focus: ClientObjectId,
    i: nat,
)
    requires
        key + 8 <= u32::MAX,
        s.focused_surface == Some(focus),
        i < s.keyboards_of(focus.0).len(),
        heard::ready(s, focus.0, 2 * s.keyboards_of(focus.0).len()),
        // It is not the compositor's own: neither Escape during a drag, nor Tab
        // or F4 with either Alt, nor let go of after having been.
        pressed ==> !(key == 1 && s.drag is Some) && !((key == 15 || key == 62) && (
        s.pressed_keys.contains(56) || s.pressed_keys.contains(100))),
        !pressed ==> !s.consumed_keys.contains(key),
    ensures
        key_heard(
            s,
            s.key_handled(time, (key + 8) as u32, pressed, m),
            time,
            key,
            pressed,
            m,
            focus.0,
            i,
        ),
{
    lemma_key_plain(s, time, key, pressed, m);
    let held = s.key_noted(key, pressed);
    let t = held.key_delivered(time, key, pressed, m);
    lemma_key_heard(s, held, t, time, key, pressed, m, focus.0, i);
}

/// What a touch object is told of a finger that moves.
spec fn slide_words(time: u32, id: i32, x: i32, y: i32) -> spec_fn(u32, u32) -> Seq<Message> {
    |serial: u32, touch: u32|
        seq![
            wire::told4(
                touch,
                wl_touch::MOTION,
                time,
                wire::signed_word(id),
                wire::signed_word(x),
                wire::signed_word(y),
            ),
            wire::told0(touch, wl_touch::FRAME),
        ]
}

/// A finger that has moved is told to every touch object of the client whose
/// surface it landed on, in turn, each time followed by a frame. The message has
/// the time in it, which finger it is, and how far right and how far down of the
/// corner of the surface it is, in 256ths of a pixel.
pub proof fn law_a_moving_finger_is_told_where_it_is(
    s: State,
    time: u32,
    id: i32,
    x: i64,
    y: i64,
    i: nat,
)
    requires
        s.touch_points.contains_key(id),
        i < s.touches_of(s.touch_points[id].0).len(),
        heard::ready(s, s.touch_points[id].0, 2 * s.touches_of(s.touch_points[id].0).len()),
        i32::MIN <= x - 256 * s.global_position(s.touch_points[id]).0 <= i32::MAX,
        i32::MIN <= y - 256 * s.global_position(s.touch_points[id]).1 <= i32::MAX,
    ensures
        ({
            let t = s.touch_slid(time, id, x, y);
            let surface = s.touch_points[id];
            let said = heard::heard(s, t, surface.0);
            let touch = s.touches_of(surface.0)[i as int];
            let corner = s.global_position(surface);
            let m = said[(2 * i) as int];
            &&& said.len() == 2 * s.touches_of(surface.0).len()
            &&& m.object_id == touch && m.op_code == 2 && m.args.len() == 16
            &&& heard::reads(m, 0, time)
            &&& heard::reads_signed(m, 1, id as int)
            &&& heard::reads_signed(m, 2, x - 256 * corner.0)
            &&& heard::reads_signed(m, 3, y - 256 * corner.1)
            &&& heard::says(said[(2 * i + 1) as int], touch, 3, Seq::empty())
            &&& t.touch_points == s.touch_points
            &&& forall|other: u32|
                other != surface.0 ==> #[trigger] t.knows(other) == s.knows(other)
                    && t.clients[other] == s.clients[other]
        }),
{
    let surface = s.touch_points[id];
    let client = surface.0;
    let u = s.dirtied();
    let touches = u.touches_of(client);
    assert(touches == s.touches_of(client));
    assert(u.global_position(surface) == s.global_position(surface));
    let corner = s.global_position(surface);
    let (lx, ly) = (wire::local(x, corner.0), wire::local(y, corner.1));
    let f = touch::sliding(client, time, id, lx, ly);
    let g = slide_words(time, id, lx, ly);
    let t = s.touch_slid(time, id, x, y);
    assert forall|a: State, o: u32|
        heard::ready(a, client, g(a.next_serial, o).len()) && heard::only_told(u, a)
            && heard::same_client(u, a, client) implies heard::told(
        a,
        #[trigger] f(a, o),
        client,
        g(a.next_serial, o),
        0,
    ) && heard::only_told(a, f(a, o)) by {
        let said = g(a.next_serial, o);
        assert(said.len() == 2);
        let b = a.touch_motion_told(client, o, time, id, lx, ly);
        let c = f(a, o);
        lemma_unstamped(a, b, client, said[0]);
        lemma_unstamped(b, c, client, said[1]);
        heard::lemma_told_both(a, b, c, client, seq![said[0]], seq![said[1]], 0, 0);
        assert(seq![said[0]] + seq![said[1]] =~= said);
    }
    heard::lemma_chorus_len(touches, u.next_serial, 0, 2, g);
    heard::lemma_each_told(u, client, touches, f, 0, g);
    let all = heard::chorus(touches, u.next_serial, 0, g);
    heard::lemma_told_heard(u, t, client, all, 0 * touches.len());
    heard::lemma_chorus(touches, u.next_serial, 0, 2, g, i, 0);
    heard::lemma_chorus(touches, u.next_serial, 0, 2, g, i, 1);
    let o = touches[i as int];
    let (a, b, c) = (wire::signed_word(id), wire::signed_word(lx), wire::signed_word(ly));
    let m = wire::told4(o, wl_touch::MOTION, time, a, b, c);
    heard::lemma_told_words(o, wl_touch::MOTION, time, a, b, c, 0, 0);
    heard::lemma_told_words(o, wl_touch::FRAME, 0, 0, 0, 0, 0, 0);
    let words = seq![time, a, b, c];
    heard::lemma_said(m, o, wl_touch::MOTION, words);
    assert(heard::reads(m, 0, words[0]) && heard::reads(m, 1, words[1]) && heard::reads(
        m,
        2,
        words[2],
    ) && heard::reads(m, 3, words[3]));
    heard::lemma_signed_word(m, 1, id);
    heard::lemma_signed_word(m, 2, lx);
    heard::lemma_signed_word(m, 3, ly);
    assert forall|other: u32| other != client implies #[trigger] t.knows(other) == s.knows(other)
        && t.clients[other] == s.clients[other] by {
        assert(t.knows(other) == u.knows(other));
    }
}

/// What a touch object is told of a finger that lands.
spec fn land_words(surface: u32, time: u32, id: i32, x: i32, y: i32) -> spec_fn(
    u32,
    u32,
) -> Seq<Message> {
    |serial: u32, touch: u32|
        seq![
            wire::told6(
                touch,
                wl_touch::DOWN,
                serial,
                time,
                surface,
                wire::signed_word(id),
                wire::signed_word(x),
                wire::signed_word(y),
            ),
            wire::told0(touch, wl_touch::FRAME),
        ]
}

/// A finger that lands on a surface is told to every touch object of the
/// surface's client, in turn, each time followed by a frame. The message has a
/// serial and the time in it, which surface and which finger it is, and how far
/// right and how far down of the corner of the surface it landed. The finger is
/// with that surface from then on.
pub proof fn law_a_finger_is_told_where_it_landed(
    s: State,
    time: u32,
    id: i32,
    x: i64,
    y: i64,
    h: HitResult,
    i: nat,
)
    requires
        s.dirtied().hit(wire::fixed_whole(x as int), wire::fixed_whole(y as int)) == Some(h),
        ({
            let u = s.dirtied().surface_raised(h.toplevel).focus_switched(h.toplevel);
            i < u.touches_of(h.surface.0).len() && heard::ready(
                u,
                h.surface.0,
                2 * u.touches_of(h.surface.0).len(),
            )
        }),
        i32::MIN <= x - 256 * h.surface_x <= i32::MAX,
        i32::MIN <= y - 256 * h.surface_y <= i32::MAX,
    ensures
        ({
            let u = s.dirtied().surface_raised(h.toplevel).focus_switched(h.toplevel);
            landing_heard(u, s.touch_landed(time, id, x, y), time, id, x, y, h, i)
        }),
{
    let u = s.dirtied().surface_raised(h.toplevel).focus_switched(h.toplevel);
    let t = s.touch_landed(time, id, x, y);
    let v = State { touch_points: u.touch_points.insert(id, h.surface), ..u };
    assert(v.touches_of(h.surface.0) == u.touches_of(h.surface.0));
    let f = touch::landing(
        h.surface,
        time,
        id,
        wire::local(x, h.surface_x),
        wire::local(y, h.surface_y),
    );
    assert(t == state::each(v, v.touches_of(h.surface.0), f));
    lemma_landing_heard(u, v, t, time, id, x, y, h, i);
}

/// What is heard of a finger that has landed.
pub open spec fn landing_heard(
    u: State,
    t: State,
    time: u32,
    id: i32,
    x: i64,
    y: i64,
    h: HitResult,
    i: nat,
) -> bool {
    let said = heard::heard(u, t, h.surface.0);
    let m = said[(2 * i) as int];
    let touch = u.touches_of(h.surface.0)[i as int];
    &&& said.len() == 2 * u.touches_of(h.surface.0).len()
    &&& m.object_id == touch && m.op_code == 0 && m.args.len() == 24
    &&& heard::reads(m, 0, heard::serial_after(u.next_serial, i))
    &&& heard::reads(m, 1, time)
    &&& heard::reads(m, 2, h.surface.1)
    &&& heard::reads_signed(m, 3, id as int)
    &&& heard::reads_signed(m, 4, x - 256 * h.surface_x)
    &&& heard::reads_signed(m, 5, y - 256 * h.surface_y)
    &&& heard::says(said[(2 * i + 1) as int], touch, 3, Seq::empty())
    &&& t.touch_points == u.touch_points.insert(id, h.surface)
}

proof fn lemma_landing_heard(
    u: State,
    v: State,
    t: State,
    time: u32,
    id: i32,
    x: i64,
    y: i64,
    h: HitResult,
    i: nat,
)
    requires
        v == (State { touch_points: u.touch_points.insert(id, h.surface), ..u }),
        t == state::each(
            v,
            v.touches_of(h.surface.0),
            touch::landing(
                h.surface,
                time,
                id,
                wire::local(x, h.surface_x),
                wire::local(y, h.surface_y),
            ),
        ),
        i < u.touches_of(h.surface.0).len(),
        heard::ready(u, h.surface.0, 2 * u.touches_of(h.surface.0).len()),
        i32::MIN <= x - 256 * h.surface_x <= i32::MAX,
        i32::MIN <= y - 256 * h.surface_y <= i32::MAX,
    ensures
        landing_heard(u, t, time, id, x, y, h, i),
{
    let client = h.surface.0;
    let touches = v.touches_of(client);
    assert(touches == u.touches_of(client));
    let (lx, ly) = (wire::local(x, h.surface_x), wire::local(y, h.surface_y));
    let f = touch::landing(h.surface, time, id, lx, ly);
    let g = land_words(h.surface.1, time, id, lx, ly);
    assert forall|a: State, o: u32|
        heard::ready(a, client, g(a.next_serial, o).len()) && heard::only_told(v, a)
            && heard::same_client(v, a, client) implies heard::told(
        a,
        #[trigger] f(a, o),
        client,
        g(a.next_serial, o),
        1,
    ) && heard::only_told(a, f(a, o)) by {
        let said = g(a.next_serial, o);
        assert(said.len() == 2);
        let b = a.touch_down_told(client, o, time, h.surface.1, id, lx, ly);
        let c = f(a, o);
        lemma_stamped(a, b, client, said[0]);
        lemma_unstamped(b, c, client, said[1]);
        heard::lemma_told_both(a, b, c, client, seq![said[0]], seq![said[1]], 1, 0);
        assert(seq![said[0]] + seq![said[1]] =~= said);
    }
    heard::lemma_chorus_len(touches, v.next_serial, 1, 2, g);
    heard::lemma_each_told(v, client, touches, f, 1, g);
    heard::lemma_told_heard(
        v,
        t,
        client,
        heard::chorus(touches, v.next_serial, 1, g),
        1 * touches.len(),
    );
    heard::lemma_chorus(touches, v.next_serial, 1, 2, g, i, 0);
    heard::lemma_chorus(touches, v.next_serial, 1, 2, g, i, 1);
    let o = touches[i as int];
    let serial = heard::serial_after(v.next_serial, 1 * i);
    let (b, c, d) = (wire::signed_word(id), wire::signed_word(lx), wire::signed_word(ly));
    let m = wire::told6(o, wl_touch::DOWN, serial, time, h.surface.1, b, c, d);
    heard::lemma_told_words(o, wl_touch::DOWN, serial, time, h.surface.1, b, c, d);
    heard::lemma_told_words(o, wl_touch::FRAME, 0, 0, 0, 0, 0, 0);
    let words = seq![serial, time, h.surface.1, b, c, d];
    heard::lemma_said(m, o, wl_touch::DOWN, words);
    assert(heard::reads(m, 0, words[0]) && heard::reads(m, 1, words[1]) && heard::reads(
        m,
        2,
        words[2],
    ) && heard::reads(m, 3, words[3]) && heard::reads(m, 4, words[4]) && heard::reads(
        m,
        5,
        words[5],
    ));
    heard::lemma_signed_word(m, 3, id);
    heard::lemma_signed_word(m, 4, lx);
    heard::lemma_signed_word(m, 5, ly);
}

/// A finger that moves to where it landed, on a surface that has not moved,
/// reports the place it reported when it landed.
pub proof fn law_a_finger_that_stays_reports_the_same_place(
    u: State,
    t: State,
    time: u32,
    later: u32,
    id: i32,
    x: i64,
    y: i64,
    h: HitResult,
    i: nat,
)
    requires
        i < u.touches_of(h.surface.0).len(),
        landing_heard(u, t, time, id, x, y, h, i),
        t.touches_of(h.surface.0) == u.touches_of(h.surface.0),
        t.global_position(h.surface) == (h.surface_x, h.surface_y),
        heard::ready(t, h.surface.0, 2 * u.touches_of(h.surface.0).len()),
        i32::MIN <= x - 256 * h.surface_x <= i32::MAX,
        i32::MIN <= y - 256 * h.surface_y <= i32::MAX,
    ensures
        ({
            let landed = heard::heard(u, t, h.surface.0)[(2 * i) as int];
            let moved = heard::heard(t, t.touch_slid(later, id, x, y), h.surface.0)[(2 * i) as int];
            &&& moved.object_id == landed.object_id
            &&& wire::signed_at(moved.args, 8) == wire::signed_at(landed.args, 16)
            &&& wire::signed_at(moved.args, 12) == wire::signed_at(landed.args, 20)
            &&& wire::signed_at(moved.args, 4) == wire::signed_at(landed.args, 12)
        }),
{
    law_a_moving_finger_is_told_where_it_is(t, later, id, x, y, i);
    let landed = heard::heard(u, t, h.surface.0)[(2 * i) as int];
    let moved = heard::heard(t, t.touch_slid(later, id, x, y), h.surface.0)[(2 * i) as int];
    assert(heard::reads_signed(landed, 4, x - 256 * h.surface_x));
    assert(heard::reads_signed(moved, 2, x - 256 * h.surface_x));
    assert(heard::reads_signed(landed, 5, y - 256 * h.surface_y));
    assert(heard::reads_signed(moved, 3, y - 256 * h.surface_y));
    assert(heard::reads_signed(landed, 3, id as int) && heard::reads_signed(moved, 1, id as int));
}

/// What a touch object is told of a finger that is lifted.
spec fn lift_words(time: u32, id: i32) -> spec_fn(u32, u32) -> Seq<Message> {
    |serial: u32, touch: u32|
        seq![
            wire::told3(touch, wl_touch::UP, serial, time, wire::signed_word(id)),
            wire::told0(touch, wl_touch::FRAME),
        ]
}

/// A finger that is lifted is told to every touch object of the client whose
/// surface it landed on, in turn, each time followed by a frame: a serial, the
/// time, and which finger it is. It is with no surface any more.
pub proof fn law_a_lifted_finger_is_told(s: State, time: u32, id: i32, i: nat)
    requires
        s.touch_points.contains_key(id),
        i < s.touches_of(s.touch_points[id].0).len(),
        heard::ready(s, s.touch_points[id].0, 2 * s.touches_of(s.touch_points[id].0).len()),
    ensures
        ({
            let t = s.touch_lifted(time, id);
            let client = s.touch_points[id].0;
            let said = heard::heard(s, t, client);
            let m = said[(2 * i) as int];
            let touch = s.touches_of(client)[i as int];
            &&& said.len() == 2 * s.touches_of(client).len()
            &&& m.object_id == touch && m.op_code == 1 && m.args.len() == 12
            &&& heard::reads(m, 0, heard::serial_after(s.next_serial, i))
            &&& heard::reads(m, 1, time)
            &&& heard::reads_signed(m, 2, id as int)
            &&& heard::says(said[(2 * i + 1) as int], touch, 3, Seq::empty())
            &&& t.touch_points == s.touch_points.remove(id)
        }),
{
    let client = s.touch_points[id].0;
    let v = State { touch_points: s.touch_points.remove(id), ..s.dirtied() };
    let touches = v.touches_of(client);
    assert(touches == s.touches_of(client));
    let f = touch::lifting(client, time, id);
    let g = lift_words(time, id);
    let t = state::each(v, touches, f);
    assert(s.touch_lifted(time, id) == t);
    assert forall|a: State, o: u32|
        heard::ready(a, client, g(a.next_serial, o).len()) && heard::only_told(v, a)
            && heard::same_client(v, a, client) implies heard::told(
        a,
        #[trigger] f(a, o),
        client,
        g(a.next_serial, o),
        1,
    ) && heard::only_told(a, f(a, o)) by {
        let said = g(a.next_serial, o);
        assert(said.len() == 2);
        let b = a.touch_up_told(client, o, time, id);
        let c = f(a, o);
        lemma_stamped(a, b, client, said[0]);
        lemma_unstamped(b, c, client, said[1]);
        heard::lemma_told_both(a, b, c, client, seq![said[0]], seq![said[1]], 1, 0);
        assert(seq![said[0]] + seq![said[1]] =~= said);
    }
    heard::lemma_chorus_len(touches, v.next_serial, 1, 2, g);
    heard::lemma_each_told(v, client, touches, f, 1, g);
    heard::lemma_told_heard(
        v,
        t,
        client,
        heard::chorus(touches, v.next_serial, 1, g),
        1 * touches.len(),
    );
    heard::lemma_chorus(touches, v.next_serial, 1, 2, g, i, 0);
    heard::lemma_chorus(touches, v.next_serial, 1, 2, g, i, 1);
    let o = touches[i as int];
    let serial = heard::serial_after(v.next_serial, 1 * i);
    let b = wire::signed_word(id);
    let m = wire::told3(o, wl_touch::UP, serial, time, b);
    heard::lemma_told_words(o, wl_touch::UP, serial, time, b, 0, 0, 0);
    heard::lemma_told_words(o, wl_touch::FRAME, 0, 0, 0, 0, 0, 0);
    let words = seq![serial, time, b];
    heard::lemma_said(m, o, wl_touch::UP, words);
    assert(heard::reads(m, 0, words[0]) && heard::reads(m, 1, words[1]) && heard::reads(
        m,
        2,
        words[2],
    ));
    heard::lemma_signed_word(m, 2, id);
}

/// What a pointer is told, and that this was all, if it knows of that.
spec fn framed(s: State, client: u32, op: u16, words: spec_fn(u32) -> Seq<u32>) -> spec_fn(
    u32,
    u32,
) -> Seq<Message> {
    |serial: u32, pointer: u32|
        {
            let m = wire::event(pointer, op, wire::words_bytes(words(serial)));
            if s.clients[client].version(pointer) >= wl_pointer::AXIS_DETAIL_SINCE {
                seq![m, wire::told0(pointer, wl_pointer::FRAME)]
            } else {
                seq![m]
            }
        }
}

/// The bytes of a few words.
proof fn lemma_few_words(a: u32, b: u32, c: u32, d: u32)
    ensures
        wire::words_bytes(seq![a, b]) == Seq::empty() + wire::le_bytes(a) + wire::le_bytes(b),
        wire::words_bytes(seq![a, b, c]) == Seq::empty() + wire::le_bytes(a) + wire::le_bytes(b)
            + wire::le_bytes(c),
        wire::words_bytes(seq![a, b, c, d]) == Seq::empty() + wire::le_bytes(a) + wire::le_bytes(b)
            + wire::le_bytes(c) + wire::le_bytes(d),
{
    reveal_with_fuel(wire::words_bytes, 2);
    let (w1, w2, w3, w4) = (seq![a], seq![a, b], seq![a, b, c], seq![a, b, c, d]);
    assert(w1.drop_last() =~= Seq::empty());
    assert(w2.drop_last() =~= w1);
    assert(w3.drop_last() =~= w2);
    assert(w4.drop_last() =~= w3);
    assert(w1.last() == a && w2.last() == b && w3.last() == c && w4.last() == d);
    assert(wire::words_bytes(w1) == Seq::empty() + wire::le_bytes(a));
    assert(wire::words_bytes(w2) == wire::words_bytes(w1) + wire::le_bytes(b));
    assert(wire::words_bytes(w3) == wire::words_bytes(w2) + wire::le_bytes(c));
    assert(wire::words_bytes(w4) == wire::words_bytes(w3) + wire::le_bytes(d));
}

/// A pointer has been told something and, if its version has frames, that this
/// was all.
pub open spec fn pointer_hears(
    s: State,
    said: Seq<Message>,
    client: u32,
    pointer: u32,
    op: u16,
    words: Seq<u32>,
    j: int,
) -> bool {
    &&& 0 <= j < said.len()
    &&& heard::says(said[j], pointer, op, words)
    &&& s.clients[client].version(pointer) >= 5 ==> j + 1 < said.len() && heard::says(
        said[j + 1],
        pointer,
        5,
        Seq::empty(),
    )
}

/// Among what has been said is what a pointer is to hear.
pub open spec fn pointer_heard(
    s: State,
    said: Seq<Message>,
    client: u32,
    pointer: u32,
    op: u16,
    words: Seq<u32>,
) -> bool {
    exists|j: int| #[trigger] pointer_hears(s, said, client, pointer, op, words, j)
}

/// Every pointer of a client hears the same, each with its serial.
proof fn lemma_pointers_hear(
    s: State,
    client: u32,
    pointers: Seq<u32>,
    op: u16,
    ticks: nat,
    f: spec_fn(State, u32) -> State,
    words: spec_fn(u32) -> Seq<u32>,
    i: int,
)
    requires
        0 <= i < pointers.len(),
        heard::ready(s, client, 2 * pointers.len()),
        forall|a: State, p: u32|
            heard::ready(a, client, framed(s, client, op, words)(a.next_serial, p).len())
                && heard::only_told(s, a) && heard::same_client(s, a, client) ==> heard::told(
                a,
                #[trigger] f(a, p),
                client,
                framed(s, client, op, words)(a.next_serial, p),
                ticks,
            ) && heard::only_told(a, f(a, p)),
    ensures
        pointer_heard(
                s,
                heard::heard(s, state::each(s, pointers, f), client),
                client,
                pointers[i],
                op,
                words(heard::serial_after(s.next_serial, (ticks * i) as nat)),
            ),
        heard::only_told(s, state::each(s, pointers, f)),
        heard::same_client(s, state::each(s, pointers, f), client),
        forall|other: u32|
            other != client ==> #[trigger] state::each(s, pointers, f).knows(other) == s.knows(
                other,
            ) && state::each(s, pointers, f).clients[other] == s.clients[other],
{
    let g = framed(s, client, op, words);
    let t = state::each(s, pointers, f);
    lemma_at_most_two(pointers, s.next_serial, ticks, g, s, client, op, words);
    heard::lemma_each_told(s, client, pointers, f, ticks, g);
    let said = heard::chorus(pointers, s.next_serial, ticks, g);
    heard::lemma_told_heard(s, t, client, said, ticks * pointers.len());
    heard::lemma_chorus_part(pointers, s.next_serial, ticks, g, i);
    let at = heard::chorus(pointers.take(i), s.next_serial, ticks, g).len() as int;
    let serial = heard::serial_after(s.next_serial, (ticks * i) as nat);
    let p = pointers[i];
    let part = g(serial, p);
    heard::lemma_says(p, op, words(serial));
    heard::lemma_told_words(p, wl_pointer::FRAME, 0, 0, 0, 0, 0, 0);
    assert(said.subrange(at, at + part.len())[0] == said[at]);
    if s.clients[client].version(p) >= 5 {
        assert(said.subrange(at, at + part.len())[1] == said[at + 1]);
    }
    assert(pointer_hears(s, said, client, p, op, words(serial), at));
}

proof fn lemma_at_most_two(
    pointers: Seq<u32>,
    serial: u32,
    ticks: nat,
    g: spec_fn(u32, u32) -> Seq<Message>,
    s: State,
    client: u32,
    op: u16,
    words: spec_fn(u32) -> Seq<u32>,
)
    requires
        g == framed(s, client, op, words),
    ensures
        heard::chorus(pointers, serial, ticks, g).len() <= 2 * pointers.len(),
    decreases pointers.len(),
{
    if pointers.len() > 0 {
        lemma_at_most_two(pointers.drop_last(), serial, ticks, g, s, client, op, words);
    }
}

/// One pointer told something with a serial, and then a frame.
proof fn lemma_framed(
    s: State,
    a: State,
    b: State,
    c: State,
    client: u32,
    p: u32,
    op: u16,
    words: spec_fn(u32) -> Seq<u32>,
    ticks: nat,
)
    requires
        heard::ready(a, client, framed(s, client, op, words)(a.next_serial, p).len()),
        heard::same_client(s, a, client),
        b.clients == a.sent(
            client,
            wire::event(p, op, wire::words_bytes(words(a.next_serial))),
        ).clients,
        ticks == 0 && b.next_serial == a.next_serial || ticks == 1 && b.next_serial
            == a.ticked().next_serial,
        c == b.pointer_framed(client, p),
    ensures
        heard::told(a, c, client, framed(s, client, op, words)(a.next_serial, p), ticks),
        heard::only_told(b, c),
{
    let m = wire::event(p, op, wire::words_bytes(words(a.next_serial)));
    let said = framed(s, client, op, words)(a.next_serial, p);
    if ticks == 0 {
        lemma_unstamped(a, b, client, m);
    } else {
        lemma_stamped(a, b, client, m);
    }
    assert(b.clients[client].version(p) == s.clients[client].version(p));
    if s.clients[client].version(p) >= 5 {
        let frame = wire::told0(p, wl_pointer::FRAME);
        lemma_unstamped(b, c, client, frame);
        heard::lemma_told_both(a, b, c, client, seq![m], seq![frame], ticks, 0);
        assert(seq![m] + seq![frame] =~= said);
    } else {
        assert(c == b);
    }
}

/// Whoever the pointer is on is told where it is: every pointer of its client,
/// the time, and how far right and how far down of the corner of the surface it
/// is, in 256ths of a pixel. Nobody else is told anything.
pub proof fn law_the_pointer_is_told_where_it_is(s: State, time: u32, h: HitResult, i: int)
    requires
        s.dirtied().hit_here() == Some(h),
        s.pointer_surface == Some(h.surface),
        s.pointer_grab is None,
        s.drag is None,
        s.focused_surface is Some,
        0 <= i < s.pointers_of(h.surface.0).len(),
        heard::ready(s, h.surface.0, 2 * s.pointers_of(h.surface.0).len()),
        i32::MIN <= s.cursor_x - 256 * h.surface_x <= i32::MAX,
        i32::MIN <= s.cursor_y - 256 * h.surface_y <= i32::MAX,
    ensures
        ({
            let t = s.motion_handled(time);
            &&& pointer_heard(
                    s,
                    heard::heard(s, t, h.surface.0),
                    h.surface.0,
                    s.pointers_of(h.surface.0)[i],
                    2,
                    seq![
                        time,
                        wire::signed_word((s.cursor_x - 256 * h.surface_x) as i32),
                        wire::signed_word((s.cursor_y - 256 * h.surface_y) as i32),
                    ],
                )
            &&& forall|other: u32|
                other != h.surface.0 ==> #[trigger] t.knows(other) == s.knows(other)
                    && t.clients[other] == s.clients[other]
            &&& t.pointer_surface == s.pointer_surface
        }),
{
    let client = h.surface.0;
    let u = s.dirtied();
    let pointers = u.pointers_of(client);
    assert(pointers == s.pointers_of(client));
    let (x, y) = (wire::local(s.cursor_x, h.surface_x), wire::local(s.cursor_y, h.surface_y));
    let f = pointer::moving(client, time, x, y);
    let words = |serial: u32| seq![time, wire::signed_word(x), wire::signed_word(y)];
    lemma_motion_plain(s, time, h);
    let t = state::each(u, pointers, f);
    let g = framed(u, client, 2, words);
    assert forall|a: State, p: u32|
        heard::ready(a, client, g(a.next_serial, p).len()) && heard::only_told(u, a)
            && heard::same_client(u, a, client) implies heard::told(
        a,
        #[trigger] f(a, p),
        client,
        g(a.next_serial, p),
        0,
    ) && heard::only_told(a, f(a, p)) by {
        lemma_few_words(time, wire::signed_word(x), wire::signed_word(y), 0);
        let b = a.pointer_moved(client, p, time, x, y);
        lemma_framed(u, a, b, f(a, p), client, p, 2, words, 0);
    }
    lemma_pointers_hear(u, client, pointers, 2, 0, f, words, i);
    let said = heard::heard(s, t, client);
    assert(said == heard::heard(u, t, client));
    let all = seq![time, wire::signed_word(x), wire::signed_word(y)];
    assert(pointer_heard(u, said, client, pointers[i], 2, all));
    let j = choose|j: int| #[trigger] pointer_hears(u, said, client, pointers[i], 2, all, j);
    assert(pointer_hears(s, said, client, pointers[i], 2, all, j));
    assert forall|other: u32| other != client implies #[trigger] t.knows(other) == s.knows(other)
        && t.clients[other] == s.clients[other] by {
        assert(t.knows(other) == u.knows(other));
    }
}

proof fn lemma_motion_plain(s: State, time: u32, h: HitResult)
    requires
        s.dirtied().hit_here() == Some(h),
        s.pointer_surface == Some(h.surface),
        s.pointer_grab is None,
        s.drag is None,
        s.focused_surface is Some,
    ensures
        s.motion_handled(time) == state::each(
            s.dirtied(),
            s.dirtied().pointers_of(h.surface.0),
            pointer::moving(
                h.surface.0,
                time,
                wire::local(s.cursor_x, h.surface_x),
                wire::local(s.cursor_y, h.surface_y),
            ),
        ),
{
}

/// A surface the pointer comes to be on is told so: every pointer of its client,
/// with a serial, which surface it is, and how far right and how far down of its
/// corner the pointer is.
pub proof fn law_the_pointer_is_told_where_it_enters(
    s: State,
    surface: ClientObjectId,
    x: i32,
    y: i32,
    i: int,
)
    requires
        0 <= i < s.pointers_of(surface.0).len(),
        heard::ready(s, surface.0, 2 * s.pointers_of(surface.0).len()),
    ensures
        pointer_heard(
                s,
                heard::heard(s, s.pointers_entered(surface, x, y), surface.0),
                surface.0,
                s.pointers_of(surface.0)[i],
                0,
                seq![
                    heard::serial_after(s.next_serial, i as nat),
                    surface.1,
                    wire::signed_word(x),
                    wire::signed_word(y),
                ],
            ),
{
    let client = surface.0;
    let pointers = s.pointers_of(client);
    let f = pointer::entering(surface, x, y);
    let words = |serial: u32|
        seq![serial, surface.1, wire::signed_word(x), wire::signed_word(y)];
    let g = framed(s, client, 0, words);
    assert forall|a: State, p: u32|
        heard::ready(a, client, g(a.next_serial, p).len()) && heard::only_told(s, a)
            && heard::same_client(s, a, client) implies heard::told(
        a,
        #[trigger] f(a, p),
        client,
        g(a.next_serial, p),
        1,
    ) && heard::only_told(a, f(a, p)) by {
        lemma_few_words(a.next_serial, surface.1, wire::signed_word(x), wire::signed_word(y));
        let b = a.pointer_entered(client, p, surface.1, x, y);
        lemma_framed(s, a, b, f(a, p), client, p, 0, words, 1);
    }
    lemma_pointers_hear(s, client, pointers, 0, 1, f, words, i);
}

/// Whoever has the pointer is told of its buttons: every pointer of its client,
/// with a serial, the time, which button, and 1 if it is pressed or 0 if it is
/// let go of.
pub proof fn law_a_button_is_told_as_it_is(
    s: State,
    time: u32,
    button: u32,
    pressed: bool,
    surface: ClientObjectId,
    i: int,
)
    requires
        s.pointer_surface == Some(surface),
        0 <= i < s.pointers_of(surface.0).len(),
        heard::ready(s, surface.0, 2 * s.pointers_of(surface.0).len()),
    ensures
        pointer_heard(
                s,
                heard::heard(s, s.button_told(time, button, pressed), surface.0),
                surface.0,
                s.pointers_of(surface.0)[i],
                3,
                seq![
                    heard::serial_after(s.next_serial, i as nat),
                    time,
                    button,
                    if pressed {
                        1u32
                    } else {
                        0
                    },
                ],
            ),
{
    let client = surface.0;
    let pointers = s.pointers_of(client);
    let f = pointer::clicking(client, time, button, pressed);
    let down = if pressed {
        1u32
    } else {
        0
    };
    let words = |serial: u32| seq![serial, time, button, down];
    let g = framed(s, client, 3, words);
    assert forall|a: State, p: u32|
        heard::ready(a, client, g(a.next_serial, p).len()) && heard::only_told(s, a)
            && heard::same_client(s, a, client) implies heard::told(
        a,
        #[trigger] f(a, p),
        client,
        g(a.next_serial, p),
        1,
    ) && heard::only_told(a, f(a, p)) by {
        lemma_few_words(a.next_serial, time, button, down);
        let b = a.pointer_clicked(client, p, time, button, pressed).press_remembered(
            client,
            a.next_serial,
            pressed,
        );
        lemma_framed(s, a, b, f(a, p), client, p, 3, words, 1);
    }
    lemma_pointers_hear(s, client, pointers, 3, 1, f, words, i);
}

/// A surface the pointer is no longer on is told so: every pointer of its client,
/// with a serial and which surface it is.
pub proof fn law_the_pointer_is_told_what_it_leaves(s: State, surface: ClientObjectId, i: int)
    requires
        0 <= i < s.pointers_of(surface.0).len(),
        heard::ready(s, surface.0, 2 * s.pointers_of(surface.0).len()),
    ensures
        pointer_heard(
            s,
            heard::heard(s, s.pointers_left(surface), surface.0),
            surface.0,
            s.pointers_of(surface.0)[i],
            1,
            seq![heard::serial_after(s.next_serial, i as nat), surface.1],
        ),
{
    let client = surface.0;
    let pointers = s.pointers_of(client);
    let f = grabs::leaving(surface);
    let words = |serial: u32| seq![serial, surface.1];
    let g = framed(s, client, 1, words);
    assert forall|a: State, p: u32|
        heard::ready(a, client, g(a.next_serial, p).len()) && heard::only_told(s, a)
            && heard::same_client(s, a, client) implies heard::told(
        a,
        #[trigger] f(a, p),
        client,
        g(a.next_serial, p),
        1,
    ) && heard::only_told(a, f(a, p)) by {
        lemma_few_words(a.next_serial, surface.1, 0, 0);
        let b = a.pointer_left(client, p, surface.1);
        lemma_framed(s, a, b, f(a, p), client, p, 1, words, 1);
    }
    lemma_pointers_hear(s, client, pointers, 1, 1, f, words, i);
}

/// The pointer that crosses from one surface to another leaves the one before it
/// enters the other, and is on the other from then on. Where it stays, nothing
/// happens.
pub proof fn law_the_pointer_crosses_from_one_surface_to_another(
    s: State,
    from: ClientObjectId,
    h: HitResult,
)
    requires
        s.pointer_surface == Some(from),
    ensures
        from == h.surface ==> s.pointer_crossed(Some(h)) == s,
        from != h.surface ==> s.pointer_crossed(Some(h)) == (State {
            pointer_surface: Some(h.surface),
            ..s.pointers_left(from)
        }).pointers_entered(
            h.surface,
            wire::local(s.pointers_left(from).cursor_x, h.surface_x),
            wire::local(s.pointers_left(from).cursor_y, h.surface_y),
        ),
        from != h.surface ==> s.pointer_crossed(None) == (State {
            pointer_surface: None,
            ..s.pointers_left(from)
        }),
{
}

/// How far a scroll goes is told in 256ths of a pixel, ten pixels for each unit
/// that was scrolled, along the axis it goes: 0 for up and down, 1 for left and
/// right. How far a wheel clicked goes before it, in as much detail as the pointer
/// knows.
pub proof fn law_a_scroll_is_told_as_it_is(
    s: State,
    client: u32,
    pointer: u32,
    time: u32,
    axis: u32,
    d: i64,
    v120: i32,
)
    requires
        heard::ready(s, client, 2),
        d != 0,
        i32::MIN <= 10 * d <= i32::MAX,
    ensures
        ({
            let t = s.axis_told(client, pointer, time, axis, d, v120);
            let said = heard::heard(s, t, client);
            let version = s.clients[client].version(pointer);
            let m = said.last();
            &&& said.len() == if v120 != 0 && version >= 5 {
                2nat
            } else {
                1
            }
            &&& m.object_id == pointer && m.op_code == 4 && m.args.len() == 12
            &&& heard::reads(m, 0, time)
            &&& heard::reads(m, 1, axis)
            &&& heard::reads_signed(m, 2, 10 * d)
            &&& v120 != 0 && version >= 8 ==> said[0].object_id == pointer && said[0].op_code == 9
                && heard::reads(said[0], 0, axis) && heard::reads_signed(said[0], 1, v120 as int)
            &&& v120 != 0 && 5 <= version < 8 ==> said[0].object_id == pointer && said[0].op_code
                == 8 && heard::reads(said[0], 0, axis) && heard::reads_signed(
                said[0],
                1,
                wl_pointer::detents(v120 as int),
            )
        }),
{
    let version = s.clients[client].version(pointer);
    let t = s.axis_told(client, pointer, time, axis, d, v120);
    let value = pointer::scroll_distance(d);
    let a = s.pointer_stepped(client, pointer, axis, v120);
    let m = wire::told3(pointer, wl_pointer::AXIS, time, axis, wire::signed_word(value));
    let before = s.clients[client].outbox;
    heard::lemma_told_words(
        pointer,
        wl_pointer::AXIS,
        time,
        axis,
        wire::signed_word(value),
        0,
        0,
        0,
    );
    let words = seq![time, axis, wire::signed_word(value)];
    heard::lemma_said(m, pointer, wl_pointer::AXIS, words);
    assert(heard::reads(m, 0, words[0]) && heard::reads(m, 1, words[1]) && heard::reads(
        m,
        2,
        words[2],
    ));
    heard::lemma_signed_word(m, 2, value);
    if v120 != 0 && version >= 5 {
        let (op, step): (u16, i32) = if version >= 8 {
            (wl_pointer::AXIS_VALUE120, v120)
        } else {
            (wl_pointer::AXIS_DISCRETE, wl_pointer::detents(v120 as int) as i32)
        };
        let n = wire::told2(pointer, op, axis, wire::signed_word(step));
        heard::lemma_told_words(pointer, op, axis, wire::signed_word(step), 0, 0, 0, 0);
        let two = seq![axis, wire::signed_word(step)];
        heard::lemma_said(n, pointer, op, two);
        assert(heard::reads(n, 0, two[0]) && heard::reads(n, 1, two[1]));
        heard::lemma_signed_word(n, 1, step);
        assert(t.clients[client].outbox == before.push(n).push(m));
        assert(before.push(n).push(m).skip(before.len() as int) =~= seq![n, m]);
    } else {
        assert(a == s);
        heard::lemma_one_heard(s, t, client, m);
    }
}

/// A keyboard has been told that it is on a surface, and which keys are held.
pub open spec fn enters(m: Message, keyboard: u32, serial: u32, surface: u32, keys: Seq<u32>) -> bool {
    &&& m.object_id == keyboard && m.op_code == 1
    &&& heard::reads(m, 0, serial)
    &&& heard::reads(m, 1, surface)
    &&& heard::reads(m, 2, (4 * keys.len()) as u32)
    &&& m.args.len() == 12 + 4 * keys.len()
    &&& forall|i: int| 0 <= i < keys.len() ==> #[trigger] heard::reads(m, 3 + i, keys[i])
}

proof fn lemma_enters(keyboard: u32, serial: u32, surface: u32, keys: Seq<u32>)
    ensures
        enters(
            wire::event(
                keyboard,
                wl_keyboard::ENTER,
                Seq::empty() + wire::le_bytes(serial) + wire::le_bytes(surface)
                    + wire::array_bytes(keys),
            ),
            keyboard,
            serial,
            surface,
            keys,
        ),
{
    let (a, b, n) = (
        wire::le_bytes(serial),
        wire::le_bytes(surface),
        wire::le_bytes((keys.len() * 4) as u32),
    );
    let list = wire::words_bytes(keys);
    let m = wire::event(
        keyboard,
        wl_keyboard::ENTER,
        Seq::empty() + a + b + wire::array_bytes(keys),
    );
    heard::lemma_words_read(keys, Seq::empty());
    assert(list + Seq::<u8>::empty() =~= list);
    assert(m.args =~= Seq::<u8>::empty() + a + (b + n + list));
    heard::lemma_word_there(Seq::empty(), serial, b + n + list);
    assert(m.args =~= a + b + (n + list));
    heard::lemma_word_there(a, surface, n + list);
    assert(m.args =~= (a + b) + n + list);
    heard::lemma_word_there(a + b, (keys.len() * 4) as u32, list);
    assert forall|i: int| 0 <= i < keys.len() implies #[trigger] heard::reads(m, 3 + i, keys[i]) by {
        assert(wire::word_at(list, 4 * i) == Some(keys[i]));
        assert(m.args.subrange(12 + 4 * i, 12 + 4 * i + 4) =~= list.subrange(4 * i, 4 * i + 4));
    }
}

/// What a keyboard is told that comes to be on a surface.
spec fn enter_words(surface: u32, keys: Seq<u32>) -> spec_fn(u32, u32) -> Seq<Message> {
    |serial: u32, keyboard: u32|
        seq![
            wire::event(
                keyboard,
                wl_keyboard::ENTER,
                Seq::empty() + wire::le_bytes(serial) + wire::le_bytes(surface)
                    + wire::array_bytes(keys),
            ),
        ]
}

/// A surface that gets the focus is told so: every keyboard of its client, in
/// turn, with a serial, which surface it is, and all the keys that are held.
pub proof fn law_the_focused_surface_is_told_what_is_held(s: State, surface: ClientObjectId, i: nat)
    requires
        i < s.keyboards_of(surface.0).len(),
        heard::ready(s, surface.0, s.keyboards_of(surface.0).len()),
        s.pressed_keys.finite(),
        crate::table::ordered(s.pressed_keys).len() <= wl_keyboard::MOST_HELD_KEYS,
    ensures
        ({
            let said = heard::heard(s, s.keyboards_entered(surface), surface.0);
            let keys = wl_keyboard::told_keys(s.pressed_keys);
            &&& said.len() == s.keyboards_of(surface.0).len()
            &&& enters(
                said[i as int],
                s.keyboards_of(surface.0)[i as int],
                heard::serial_after(s.next_serial, i),
                surface.1,
                keys,
            )
            &&& forall|k: u32| #[trigger] keys.contains(k) <==> s.pressed_keys.contains(k)
        }),
{
    let client = surface.0;
    let keyboards = s.keyboards_of(client);
    let keys = wl_keyboard::told_keys(s.pressed_keys);
    crate::table::lemma_finite_listed(s.pressed_keys);
    let f = crate::focus::focusing(surface);
    let g = enter_words(surface.1, keys);
    let t = s.keyboards_entered(surface);
    assert forall|a: State, o: u32|
        heard::ready(a, client, g(a.next_serial, o).len()) && heard::only_told(s, a)
            && heard::same_client(s, a, client) implies heard::told(
        a,
        #[trigger] f(a, o),
        client,
        g(a.next_serial, o),
        1,
    ) && heard::only_told(a, f(a, o)) by {
        let said = g(a.next_serial, o);
        assert(a.pressed_keys == s.pressed_keys);
        lemma_stamped(a, f(a, o), client, said[0]);
        assert(seq![said[0]] =~= said);
    }
    heard::lemma_chorus_len(keyboards, s.next_serial, 1, 1, g);
    heard::lemma_each_told(s, client, keyboards, f, 1, g);
    heard::lemma_told_heard(
        s,
        t,
        client,
        heard::chorus(keyboards, s.next_serial, 1, g),
        1 * keyboards.len(),
    );
    heard::lemma_chorus(keyboards, s.next_serial, 1, 1, g, i, 0);
    lemma_enters(keyboards[i as int], heard::serial_after(s.next_serial, 1 * i), surface.1, keys);
}

/// What a keyboard is told that leaves a surface.
spec fn leave_words(surface: u32) -> spec_fn(u32, u32) -> Seq<Message> {
    |serial: u32, keyboard: u32|
        seq![wire::told2(keyboard, wl_keyboard::LEAVE, serial, surface)]
}

/// A surface that loses the focus is told so: every keyboard of its client, in
/// turn, with a serial and which surface it is.
pub proof fn law_the_surface_that_loses_the_focus_is_told(s: State, surface: ClientObjectId, i: nat)
    requires
        i < s.keyboards_of(surface.0).len(),
        heard::ready(s, surface.0, s.keyboards_of(surface.0).len()),
    ensures
        ({
            let said = heard::heard(s, s.keyboards_left(surface), surface.0);
            &&& said.len() == s.keyboards_of(surface.0).len()
            &&& heard::says(
                said[i as int],
                s.keyboards_of(surface.0)[i as int],
                2,
                seq![heard::serial_after(s.next_serial, i), surface.1],
            )
        }),
{
    let client = surface.0;
    let keyboards = s.keyboards_of(client);
    let f = crate::focus::unfocusing(surface);
    let g = leave_words(surface.1);
    let t = s.keyboards_left(surface);
    assert forall|a: State, o: u32|
        heard::ready(a, client, g(a.next_serial, o).len()) && heard::only_told(s, a)
            && heard::same_client(s, a, client) implies heard::told(
        a,
        #[trigger] f(a, o),
        client,
        g(a.next_serial, o),
        1,
    ) && heard::only_told(a, f(a, o)) by {
        let said = g(a.next_serial, o);
        lemma_stamped(a, f(a, o), client, said[0]);
        assert(seq![said[0]] =~= said);
    }
    heard::lemma_chorus_len(keyboards, s.next_serial, 1, 1, g);
    heard::lemma_each_told(s, client, keyboards, f, 1, g);
    heard::lemma_told_heard(
        s,
        t,
        client,
        heard::chorus(keyboards, s.next_serial, 1, g),
        1 * keyboards.len(),
    );
    heard::lemma_chorus(keyboards, s.next_serial, 1, 1, g, i, 0);
    let serial = heard::serial_after(s.next_serial, 1 * i);
    heard::lemma_told_words(
        keyboards[i as int],
        wl_keyboard::LEAVE,
        serial,
        surface.1,
        0,
        0,
        0,
        0,
    );
}

} // verus!

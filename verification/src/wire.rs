//! Wayland wire format serialization and deserialization.
//!
//! Provides low-level helpers for reading and writing the Wayland binary
//! protocol: [`ArgWriter`] (builder for outgoing message args), [`ArgReader`]
//! (cursor-based parser for incoming args), and the message constructors.
//!
//! The format is stated as byte sequences: [`le_bytes`] for a word,
//! [`string_bytes`] for a string and [`array_bytes`] for an array of words,
//! with [`word_at`], [`string_at`] and [`string_or_null_at`] reading them back.

use vstd::prelude::*;
use vstd::string::StringSliceAdditionalSpecFns;
use vstd::utf8::*;

verus! {

/// The four little-endian bytes of a 32-bit word.
pub open spec fn le_bytes(v: u32) -> Seq<u8> {
    seq![
        (v % 256) as u8,
        ((v / 256) % 256) as u8,
        ((v / 65536) % 256) as u8,
        (v / 16777216) as u8,
    ]
}

/// The word four little-endian bytes spell.
pub open spec fn le_word(b: Seq<u8>) -> u32 {
    (b[0] + b[1] * 256 + b[2] * 65536 + b[3] * 16777216) as u32
}

/// A signed argument travels as the word with the same bits.
pub open spec fn signed_word(v: i32) -> u32 {
    v as u32
}

/// The signed argument a word carries.
pub open spec fn word_signed(w: u32) -> i32 {
    w as i32
}

/// How many bytes bring `n` bytes up to a four-byte boundary.
pub open spec fn padding(n: nat) -> nat {
    ((4 - n % 4) % 4) as nat
}

/// `n` zero bytes.
pub open spec fn zeros(n: nat) -> Seq<u8> {
    Seq::new(n, |i: int| 0u8)
}

/// A string on the wire: its length counting the terminator, its UTF-8 bytes,
/// the terminator, and zeros up to a four-byte boundary.
pub open spec fn string_bytes(s: Seq<char>) -> Seq<u8> {
    let utf8 = encode_utf8(s);
    le_bytes((utf8.len() + 1) as u32) + utf8 + zeros(1 + padding(utf8.len() + 1))
}

/// A nullable string on the wire. Null is a length of zero and nothing else,
/// which is not what an empty string is.
pub open spec fn string_or_null_bytes(s: Option<Seq<char>>) -> Seq<u8> {
    match s {
        Some(s) => string_bytes(s),
        None => le_bytes(0),
    }
}

/// The bytes of several words, one after another.
pub open spec fn words_bytes(words: Seq<u32>) -> Seq<u8>
    decreases words.len(),
{
    if words.len() == 0 {
        Seq::empty()
    } else {
        words_bytes(words.drop_last()) + le_bytes(words.last())
    }
}

/// An array of words on the wire: a count of *bytes*, then the bytes.
pub open spec fn array_bytes(words: Seq<u32>) -> Seq<u8> {
    le_bytes((words.len() * 4) as u32) + words_bytes(words)
}

/// The word at an offset, if all four of its bytes are there.
pub open spec fn word_at(buf: Seq<u8>, offset: int) -> Option<u32> {
    if 0 <= offset && offset + 4 <= buf.len() {
        Some(le_word(buf.subrange(offset, offset + 4)))
    } else {
        None
    }
}

/// The signed word at an offset.
pub open spec fn signed_at(buf: Seq<u8>, offset: int) -> Option<i32> {
    match word_at(buf, offset) {
        Some(w) => Some(word_signed(w)),
        None => None,
    }
}

/// The string at an offset, and how many bytes it takes up there. The text is
/// what lossy decoding makes of the bytes before the terminator.
pub open spec fn string_at(buf: Seq<u8>, offset: int) -> Option<(Seq<char>, nat)> {
    match word_at(buf, offset) {
        None => None,
        Some(len) => {
            let padded = len + padding(len as nat);
            if len == 0 {
                Some((Seq::empty(), 4))
            } else if buf.len() < offset + 4 + padded {
                None
            } else {
                Some((
                    lossy_utf8(buf.subrange(offset + 4, offset + 4 + len - 1)),
                    (4 + padded) as nat,
                ))
            }
        },
    }
}

/// The bytes of the string at an offset, without its terminator.
pub open spec fn string_text_at(buf: Seq<u8>, offset: int) -> Option<Seq<u8>> {
    match word_at(buf, offset) {
        Some(len) if len > 0 && offset + 4 + len <= buf.len() => Some(
            buf.subrange(offset + 4, offset + 4 + len - 1),
        ),
        _ => None,
    }
}

/// These bytes stand at this offset.
pub open spec fn holds_at(buf: Seq<u8>, offset: int, bytes: Seq<u8>) -> bool {
    &&& 0 <= offset
    &&& offset + bytes.len() <= buf.len()
    &&& buf.subrange(offset, offset + bytes.len()) == bytes
}

/// A word reads back as what was written, wherever in the buffer it stands.
pub proof fn law_word_read_back(buf: Seq<u8>, offset: int, v: u32)
    requires
        holds_at(buf, offset, le_bytes(v)),
    ensures
        word_at(buf, offset) == Some(v),
{
    assert(buf.subrange(offset, offset + 4) == le_bytes(v));
    assert(v == v % 256 + ((v / 256) % 256) * 256 + ((v / 65536) % 256) * 65536 + (v / 16777216)
        * 16777216 && v % 256 < 256 && (v / 256) % 256 < 256 && (v / 65536) % 256 < 256 && v
        / 16777216 < 256) by (bit_vector);
}

/// A signed word reads back as what was written.
pub proof fn law_signed_read_back(buf: Seq<u8>, offset: int, v: i32)
    requires
        holds_at(buf, offset, le_bytes(signed_word(v))),
    ensures
        signed_at(buf, offset) == Some(v),
{
    law_word_read_back(buf, offset, signed_word(v));
    assert((v as u32) as i32 == v) by (bit_vector);
}

/// The text bytes of a written string are the ones read back, and reading it
/// consumes exactly what writing it produced.
pub proof fn law_string_bytes_read_back(buf: Seq<u8>, offset: int, c: Seq<char>)
    requires
        holds_at(buf, offset, string_bytes(c)),
        encode_utf8(c).len() < u32::MAX,
    ensures
        string_text_at(buf, offset) == Some(encode_utf8(c)),
        string_at(buf, offset) == Some((lossy_utf8(encode_utf8(c)), string_bytes(c).len())),
        string_or_null_at(buf, offset) == Some(
            (Some(lossy_utf8(encode_utf8(c))), string_bytes(c).len()),
        ),
{
    let utf8 = encode_utf8(c);
    let len = (utf8.len() + 1) as u32;
    let bytes = string_bytes(c);
    let tail = buf.subrange(offset, offset + bytes.len());
    assert(buf.subrange(offset, offset + 4) =~= le_bytes(len)) by {
        assert forall|i: int| 0 <= i < 4 implies buf[offset + i] == le_bytes(len)[i] by {
            assert(tail[i] == bytes[i]);
        }
    }
    law_word_read_back(buf, offset, len);
    assert(buf.subrange(offset + 4, offset + 4 + len - 1) =~= utf8) by {
        assert forall|i: int| 0 <= i < utf8.len() implies buf[offset + 4 + i] == utf8[i] by {
            assert(tail[4 + i] == bytes[4 + i]);
        }
    }
}

/// A null string reads back as null, never as an empty string.
pub proof fn law_null_string_read_back(buf: Seq<u8>, offset: int)
    requires
        holds_at(buf, offset, string_or_null_bytes(None)),
    ensures
        string_or_null_at(buf, offset) == Some((None::<Seq<char>>, 4nat)),
{
    law_word_read_back(buf, offset, 0);
}

/// Null and empty are different on the wire, as are any two different strings
/// or a string and null.
pub proof fn law_nullable_strings_are_told_apart(a: Option<Seq<char>>, b: Option<Seq<char>>)
    requires
        a matches Some(s) ==> encode_utf8(s).len() < u32::MAX,
        b matches Some(s) ==> encode_utf8(s).len() < u32::MAX,
        string_or_null_bytes(a) == string_or_null_bytes(b),
    ensures
        a == b,
{
    let bytes = string_or_null_bytes(a);
    assert(bytes.subrange(0, bytes.len() as int) =~= bytes);
    if let Some(s) = a {
        law_string_bytes_read_back(bytes, 0, s);
        encode_utf8_decode_utf8(s);
    } else {
        law_null_string_read_back(bytes, 0);
    }
    if let Some(s) = b {
        law_string_bytes_read_back(bytes, 0, s);
        encode_utf8_decode_utf8(s);
    } else {
        law_null_string_read_back(bytes, 0);
    }
}

/// Each word takes up four bytes.
proof fn lemma_words_take_four_bytes(words: Seq<u32>)
    ensures
        words_bytes(words).len() == 4 * words.len(),
    decreases words.len(),
{
    if words.len() > 0 {
        lemma_words_take_four_bytes(words.drop_last());
    }
}

/// Every written argument keeps the buffer on a four-byte boundary.
pub proof fn law_arguments_stay_aligned(s: Seq<char>, words: Seq<u32>)
    ensures
        string_bytes(s).len() % 4 == 0,
        array_bytes(words).len() % 4 == 0,
{
    let n = encode_utf8(s).len();
    assert(string_bytes(s).len() == 4 + n + 1 + padding(n + 1));
    lemma_words_take_four_bytes(words);
    assert(array_bytes(words).len() == 4 + 4 * words.len());
}

/// The nullable string at an offset, and how many bytes it takes up there.
pub open spec fn string_or_null_at(buf: Seq<u8>, offset: int) -> Option<(Option<Seq<char>>, nat)> {
    if word_at(buf, offset) == Some(0u32) {
        Some((None, 4))
    } else {
        match string_at(buf, offset) {
            Some((s, n)) => Some((Some(s), n)),
            None => None,
        }
    }
}

/// What `String::from_utf8_lossy` makes of some bytes.
pub uninterp spec fn lossy_utf8(bytes: Seq<u8>) -> Seq<char>;

/// `String::from_utf8_lossy` on the bytes, made owned.
///
/// Claimed: the text depends on the bytes alone; bytes that are valid UTF-8
/// decode to exactly the text they encode; and since every ill-formed sequence
/// of one or more bytes becomes one three-byte replacement character, the
/// encoded text is at most three times as long as the bytes were.
#[verifier::external_body]
fn from_utf8_lossy(bytes: &[u8]) -> (s: String)
    ensures
        s@ == lossy_utf8(bytes@),
        valid_utf8(bytes@) ==> s@ == decode_utf8(bytes@),
        encode_utf8(s@).len() <= 3 * bytes@.len(),
{
    String::from_utf8_lossy(bytes).into_owned()
}

/// Read a u32 from a byte slice at the given offset.
pub fn read_u32(args: &[u8], offset: usize) -> (r: Option<u32>)
    ensures
        r == word_at(args@, offset as int),
{
    if offset > args.len() || args.len() - offset < 4 {
        return None;
    }
    let b0: u32 = args[offset] as u32;
    let b1: u32 = args[offset + 1] as u32;
    let b2: u32 = args[offset + 2] as u32;
    let b3: u32 = args[offset + 3] as u32;
    proof {
        let b = args@.subrange(offset as int, offset as int + 4);
        assert(b[0] == b0 && b[1] == b1 && b[2] == b2 && b[3] == b3);
    }
    Some(b0 + b1 * 256 + b2 * 65536 + b3 * 16777216)
}

/// Read an i32 from a byte slice at the given offset.
pub fn read_i32(args: &[u8], offset: usize) -> (r: Option<i32>)
    ensures
        r == signed_at(args@, offset as int),
{
    match read_u32(args, offset) {
        Some(w) => Some(w as i32),
        None => None,
    }
}

/// Read a Wayland string from a byte slice at the given offset.
///
/// Returns the text and how many bytes it took up, padding counted. A null
/// string reads as an empty one; see [`read_string_or_null`] for the reader
/// that tells the two apart.
pub fn read_string(args: &[u8], offset: usize) -> (r: Option<(String, usize)>)
    ensures
        r is None <==> string_at(args@, offset as int) is None,
        r matches Some((s, n)) ==> string_at(args@, offset as int) == Some((s@, n as nat))
            && encode_utf8(s@).len() <= 3 * args@.len() && offset + n <= args@.len(),
        forall|c: Seq<char>| #[trigger]
            holds_at(args@, offset as int, string_bytes(c)) && encode_utf8(c).len() < u32::MAX
                ==> (r matches Some((s, n)) && s@ == c && n == string_bytes(c).len()),
{
    proof {
        assert forall|c: Seq<char>| #[trigger]
            holds_at(args@, offset as int, string_bytes(c)) && encode_utf8(c).len()
                < u32::MAX implies string_text_at(args@, offset as int) == Some(encode_utf8(c))
            && string_at(args@, offset as int) is Some && string_at(args@, offset as int).unwrap().1
            == string_bytes(c).len() by {
            law_string_bytes_read_back(args@, offset as int, c);
        }
    }
    let len: u32 = match read_u32(args, offset) {
        Some(len) => len,
        None => {
            return None;
        },
    };
    if len == 0 {
        proof {
            reveal_with_fuel(encode_utf8, 1);
        }
        return Some((String::new(), 4));
    }
    assert(args.len() == args@.len());
    let start: usize = offset + 4;
    let pad: u32 = (4 - len % 4) % 4;
    let room: u64 = (args.len() - start) as u64;
    let padded: u64 = len as u64 + pad as u64;
    if room < padded {
        return None;
    }
    let len: usize = len as usize;
    let end: usize = start + (len - 1);
    let text = vstd::slice::slice_subrange(args, start, end);
    let s = from_utf8_lossy(text);
    proof {
        assert forall|c: Seq<char>| #[trigger]
            holds_at(args@, offset as int, string_bytes(c)) && encode_utf8(c).len()
                < u32::MAX implies s@ == c by {
            encode_utf8_valid_utf8(c);
            encode_utf8_decode_utf8(c);
        }
    }
    Some((s, 4 + padded as usize))
}

/// Read a Wayland string that may be null.
///
/// Returns the string and how many bytes it took up, where the inner `None` is
/// a null string and `Some(String::new())` is an empty one. The two are
/// different on the wire and mean different things: `wl_data_source.target`
/// sends null to say the target will take nothing at all, and a client reading
/// that as an empty string would believe a zero-length mime type had been
/// accepted.
///
/// [`read_string`] collapses the two, which is right for every interface that
/// has no nullable string and wrong for the ones that do.
pub fn read_string_or_null(args: &[u8], offset: usize) -> (r: Option<(Option<String>, usize)>)
    ensures
        r is None <==> string_or_null_at(args@, offset as int) is None,
        r matches Some((None, n)) ==> string_or_null_at(args@, offset as int) == Some(
            (None::<Seq<char>>, n as nat),
        ) && offset + n <= args@.len(),
        r matches Some((Some(s), n)) ==> string_or_null_at(args@, offset as int) == Some(
            (Some(s@), n as nat),
        ) && encode_utf8(s@).len() <= 3 * args@.len() && offset + n <= args@.len(),
{
    match read_u32(args, offset) {
        None => None,
        Some(len) => if len == 0 {
            Some((None, 4))
        } else {
            match read_string(args, offset) {
                Some((s, consumed)) => Some((Some(s), consumed)),
                None => None,
            }
        },
    }
}

/// Cursor-based reader for parsing Wayland message arguments.
pub struct ArgReader<'a> {
    buf: &'a [u8],
    pos: usize,
}

impl<'a> ArgReader<'a> {
    /// The bytes being read.
    pub closed spec fn bytes(&self) -> Seq<u8> {
        self.buf@
    }

    /// How many bytes have been read.
    pub closed spec fn position(&self) -> nat {
        self.pos as nat
    }

    /// The cursor has not left the buffer.
    pub closed spec fn wf(&self) -> bool {
        self.pos <= self.buf@.len()
    }

    /// Create a new argument reader
    pub fn new(buf: &'a [u8]) -> (r: Self)
        ensures
            r.wf(),
            r.bytes() == buf@,
            r.position() == 0,
    {
        Self { buf, pos: 0 }
    }

    /// Attempt to read a u32 from the buffer and advance the cursor
    pub fn u32(&mut self) -> (r: Option<u32>)
        requires
            old(self).wf(),
        ensures
            final(self).wf(),
            final(self).bytes() == old(self).bytes(),
            r == word_at(old(self).bytes(), old(self).position() as int),
            final(self).position() == old(self).position() + if r is Some { 4nat } else { 0 },
    {
        let val = read_u32(self.buf, self.pos);
        if val.is_some() {
            assert(self.buf.len() == self.buf@.len());
            self.pos = self.pos + 4;
        }
        val
    }

    /// Attempt to read an i32 from the buffer and advance the cursor
    pub fn i32(&mut self) -> (r: Option<i32>)
        requires
            old(self).wf(),
        ensures
            final(self).wf(),
            final(self).bytes() == old(self).bytes(),
            r == signed_at(old(self).bytes(), old(self).position() as int),
            final(self).position() == old(self).position() + if r is Some { 4nat } else { 0 },
    {
        let val = read_i32(self.buf, self.pos);
        if val.is_some() {
            assert(self.buf.len() == self.buf@.len());
            self.pos = self.pos + 4;
        }
        val
    }

    /// Attempt to read a wayland string from the buffer and advance the cursor
    pub fn string(&mut self) -> (r: Option<String>)
        requires
            old(self).wf(),
        ensures
            final(self).wf(),
            final(self).bytes() == old(self).bytes(),
            match (r, string_at(old(self).bytes(), old(self).position() as int)) {
                (Some(s), Some((chars, n))) => s@ == chars && final(self).position() == old(
                    self,
                ).position() + n && encode_utf8(s@).len() <= 3 * old(self).bytes().len(),
                (None, None) => final(self).position() == old(self).position(),
                _ => false,
            },
    {
        match read_string(self.buf, self.pos) {
            Some((s, consumed)) => {
                assert(self.buf.len() == self.buf@.len());
                self.pos = self.pos + consumed;
                Some(s)
            },
            None => None,
        }
    }

    /// Attempt to read a nullable wayland string and advance the cursor.
    ///
    /// The outer `None` is a decode failure; the inner one is a null string,
    /// which `wl_data_offer.accept` sends to say it will take nothing. See
    /// [`read_string_or_null`] for why the two cannot be collapsed.
    pub fn string_or_null(&mut self) -> (r: Option<Option<String>>)
        requires
            old(self).wf(),
        ensures
            final(self).wf(),
            final(self).bytes() == old(self).bytes(),
            match (r, string_or_null_at(old(self).bytes(), old(self).position() as int)) {
                (Some(None), Some((None, n))) => final(self).position() == old(self).position() + n,
                (Some(Some(s)), Some((Some(chars), n))) => s@ == chars && final(self).position()
                    == old(self).position() + n && encode_utf8(s@).len() <= 3 * old(
                    self,
                ).bytes().len(),
                (None, None) => final(self).position() == old(self).position(),
                _ => false,
            },
    {
        match read_string_or_null(self.buf, self.pos) {
            Some((s, consumed)) => {
                assert(self.buf.len() == self.buf@.len());
                self.pos = self.pos + consumed;
                Some(s)
            },
            None => None,
        }
    }

    /// Attempt to read a 24.8 fixed-point decimal from the buffer and advance
    /// the cursor. The value is in 256ths.
    pub fn fixed(&mut self) -> (r: Option<i32>)
        requires
            old(self).wf(),
        ensures
            final(self).wf(),
            final(self).bytes() == old(self).bytes(),
            r == signed_at(old(self).bytes(), old(self).position() as int),
            final(self).position() == old(self).position() + if r is Some { 4nat } else { 0 },
    {
        self.i32()
    }

    /// Alias for u32 - reads a `new_id` argument.
    pub fn new_id(&mut self) -> (r: Option<u32>)
        requires
            old(self).wf(),
        ensures
            final(self).wf(),
            final(self).bytes() == old(self).bytes(),
            r == word_at(old(self).bytes(), old(self).position() as int),
            final(self).position() == old(self).position() + if r is Some { 4nat } else { 0 },
    {
        self.u32()
    }
}

/// Writer for building Wayland message argument buffers.
pub struct ArgWriter {
    buf: Vec<u8>,
}

impl View for ArgWriter {
    type V = Seq<u8>;

    closed spec fn view(&self) -> Seq<u8> {
        self.buf@
    }
}

impl ArgWriter {
    /// Create a new `ArgWriter` with an empty argument buffer
    pub fn new() -> (r: Self)
        ensures
            r@ == Seq::<u8>::empty(),
    {
        Self { buf: Vec::new() }
    }

    /// Adds a `u32` to the argument buffer
    pub fn u32(self, val: u32) -> (r: Self)
        ensures
            r@ == self@ + le_bytes(val),
    {
        let mut buf = self.buf;
        let ghost before = buf@;
        buf.push((val % 256) as u8);
        buf.push(((val / 256) % 256) as u8);
        buf.push(((val / 65536) % 256) as u8);
        buf.push((val / 16777216) as u8);
        assert(buf@ =~= before + le_bytes(val));
        Self { buf }
    }

    /// Adds an `i32` to the argument buffer
    pub fn i32(self, val: i32) -> (r: Self)
        ensures
            r@ == self@ + le_bytes(signed_word(val)),
    {
        self.u32(val as u32)
    }

    /// Adds a wayland string to the argument buffer
    pub fn string(self, val: &str) -> (r: Self)
        requires
            encode_utf8(val@).len() < u32::MAX,
        ensures
            r@ == self@ + string_bytes(val@),
    {
        let bytes = val.as_bytes();
        let len: u32 = bytes.len() as u32 + 1;
        let ghost before = self@;
        let mut buf = self.u32(len).buf;
        buf.extend_from_slice(bytes);
        assert(buf@ =~= before + le_bytes(len) + encode_utf8(val@));
        buf.push(0);  // null terminator
        // pad to 4-byte boundary
        let pad: u32 = (4 - len % 4) % 4;
        let mut i: u32 = 0;
        while i < pad
            invariant
                i <= pad,
                buf@ == before + le_bytes(len) + encode_utf8(val@) + zeros((1 + i) as nat),
            decreases pad - i,
        {
            buf.push(0);
            assert(zeros((1 + i) as nat).push(0) =~= zeros((2 + i) as nat));
            i = i + 1;
        }
        assert(buf@ =~= before + string_bytes(val@));
        Self { buf }
    }

    /// Adds a `wl_array` of `u32`s.
    ///
    /// On the wire an array is a byte count followed by the bytes, padded out
    /// to a four-byte boundary, which a whole number of words always ends on -
    /// the count is of *bytes*, not elements, which is the easy thing to get
    /// wrong when there is no helper and each caller counts for itself.
    pub fn array_u32(self, values: &[u32]) -> (r: Self)
        requires
            values@.len() * 4 <= u32::MAX,
        ensures
            r@ == self@ + array_bytes(values@),
    {
        let ghost before = self@;
        let mut w = self.u32(values.len() as u32 * 4);
        let mut i: usize = 0;
        while i < values.len()
            invariant
                i <= values@.len(),
                w@ == before + le_bytes((values@.len() * 4) as u32) + words_bytes(
                    values@.take(i as int),
                ),
            decreases values@.len() - i,
        {
            w = w.u32(values[i]);
            assert(values@.take(i as int + 1).drop_last() =~= values@.take(i as int));
            i = i + 1;
        }
        assert(values@.take(i as int) =~= values@);
        assert(w@ =~= before + array_bytes(values@));
        w
    }

    /// Adds a nullable object or `new_id` argument. A null object is a zero id.
    pub fn object(self, val: Option<u32>) -> (r: Self)
        ensures
            r@ == self@ + le_bytes(
                match val {
                    Some(id) => id,
                    None => 0,
                },
            ),
    {
        match val {
            Some(id) => self.u32(id),
            None => self.u32(0),
        }
    }

    /// Adds a nullable string.
    ///
    /// Not the same as an empty one, and the difference is on the wire: a null
    /// string is a length of zero and nothing else, while an empty string is a
    /// length of one, a NUL byte, and three bytes of padding.
    /// `wl_data_source.target` distinguishes them - null means the target will
    /// take nothing - so writing `string("")` where a null belongs tells the
    /// source that a zero-length mime type was accepted.
    pub fn string_or_null(self, val: Option<&str>) -> (r: Self)
        requires
            val matches Some(s) ==> encode_utf8(s@).len() < u32::MAX,
        ensures
            r@ == self@ + string_or_null_bytes(
                match val {
                    Some(s) => Some(s@),
                    None => None,
                },
            ),
    {
        match val {
            Some(s) => self.string(s),
            None => self.u32(0),
        }
    }

    /// Adds a 24.8 fixed point decimal, given in 256ths, to the buffer
    pub fn fixed(self, val: i32) -> (r: Self)
        ensures
            r@ == self@ + le_bytes(signed_word(val)),
    {
        self.i32(val)
    }

    /// The bytes written.
    pub fn build(self) -> (r: Vec<u8>)
        ensures
            r@ == self@,
    {
        self.buf
    }
}

/// A file descriptor, by the number its owner knows it under.
///
/// Only the number travels through this library. Whoever holds the descriptor
/// itself closes it when told to.
#[derive(Debug, Clone, Copy, PartialEq, Eq, Structural)]
pub struct Fd(pub u32);

/// One message, in either direction.
#[derive(Debug)]
pub struct WaylandProtocolMessage {
    /// The object the message is addressed to or comes from.
    pub object_id: u32,
    /// Which request or event it is.
    pub op_code: u16,
    /// Its encoded arguments.
    pub args: Vec<u8>,
    /// The descriptors that travel with it.
    pub fds: Vec<Fd>,
}

/// What a message says.
#[verifier::ext_equal]
pub struct Message {
    pub object_id: u32,
    pub op_code: u16,
    pub args: Seq<u8>,
    pub fds: Seq<Fd>,
}

impl View for WaylandProtocolMessage {
    type V = Message;

    open spec fn view(&self) -> Message {
        Message {
            object_id: self.object_id,
            op_code: self.op_code,
            args: self.args@,
            fds: self.fds@,
        }
    }
}

/// A request, and the client it came from.
#[derive(Debug)]
pub struct WaylandProtocolMessageWithClientInfo {
    /// The client that sent it.
    pub client_id: u32,
    /// What it sent.
    pub message: WaylandProtocolMessage,
}

/// What a client asks for.
#[verifier::ext_equal]
pub struct Request {
    pub client: u32,
    pub object: u32,
    pub op: u16,
    pub args: Seq<u8>,
}

impl View for WaylandProtocolMessageWithClientInfo {
    type V = Request;

    open spec fn view(&self) -> Request {
        Request {
            client: self.client_id,
            object: self.message.object_id,
            op: self.message.op_code,
            args: self.message.args@,
        }
    }
}

impl Request {
    /// The object it is addressed to.
    pub open spec fn key(self) -> (u32, u32) {
        (self.client, self.object)
    }

    /// The word at an offset.
    pub open spec fn word(self, offset: int) -> Option<u32> {
        word_at(self.args, offset)
    }

    /// The signed word at an offset.
    pub open spec fn signed(self, offset: int) -> Option<i32> {
        signed_at(self.args, offset)
    }

    /// Its size can be written in the sixteen bits the wire has for it.
    pub open spec fn fits(self) -> bool {
        self.args.len() <= u16::MAX
    }
}

/// The message with these arguments and no file descriptors.
pub open spec fn event(object_id: u32, op_code: u16, args: Seq<u8>) -> Message {
    Message { object_id, op_code, args, fds: Seq::empty() }
}

/// Build a `WaylandMessage` with no file descriptors.
pub fn build_message(object_id: u32, op_code: u16, args: Vec<u8>) -> (r: WaylandProtocolMessage)
    ensures
        r@ == event(object_id, op_code, args@),
{
    WaylandProtocolMessage { object_id, op_code, args, fds: Vec::new() }
}

/// Build a `WaylandMessage` carrying file descriptors as ancillary data.
///
/// The message owns them from here on. `SCM_RIGHTS` duplicates a descriptor
/// into the receiving client, so our copy still has to be closed afterwards,
/// sent or not, which is what makes a send that fails or a client that has
/// gone away leak nothing.
pub fn build_message_with_fds(
    object_id: u32,
    op_code: u16,
    args: Vec<u8>,
    fds: Vec<Fd>,
) -> (r: WaylandProtocolMessage)
    ensures
        r@ == (Message { object_id, op_code, args: args@, fds: fds@ }),
{
    WaylandProtocolMessage { object_id, op_code, args, fds }
}

/// An event with no arguments.
pub open spec fn told0(object_id: u32, op_code: u16) -> Message {
    event(object_id, op_code, Seq::empty())
}

/// Build an event with no arguments.
pub fn tell0(object_id: u32, op_code: u16) -> (r: WaylandProtocolMessage)
    ensures
        r@ == told0(object_id, op_code),
{
    build_message(object_id, op_code, ArgWriter::new().build())
}

/// An event whose argument is one word.
pub open spec fn told1(object_id: u32, op_code: u16, a: u32) -> Message {
    event(object_id, op_code, Seq::empty() + le_bytes(a))
}

/// Build an event whose argument is one word.
pub fn tell1(object_id: u32, op_code: u16, a: u32) -> (r: WaylandProtocolMessage)
    ensures
        r@ == told1(object_id, op_code, a),
{
    build_message(object_id, op_code, ArgWriter::new().u32(a).build())
}

/// An event whose arguments are two words.
pub open spec fn told2(object_id: u32, op_code: u16, a: u32, b: u32) -> Message {
    event(object_id, op_code, Seq::empty() + le_bytes(a) + le_bytes(b))
}

/// Build an event whose arguments are two words.
pub fn tell2(object_id: u32, op_code: u16, a: u32, b: u32) -> (r: WaylandProtocolMessage)
    ensures
        r@ == told2(object_id, op_code, a, b),
{
    build_message(object_id, op_code, ArgWriter::new().u32(a).u32(b).build())
}

/// An event whose arguments are three words.
pub open spec fn told3(object_id: u32, op_code: u16, a: u32, b: u32, c: u32) -> Message {
    event(object_id, op_code, Seq::empty() + le_bytes(a) + le_bytes(b) + le_bytes(c))
}

/// Build an event whose arguments are three words.
pub fn tell3(object_id: u32, op_code: u16, a: u32, b: u32, c: u32) -> (r: WaylandProtocolMessage)
    ensures
        r@ == told3(object_id, op_code, a, b, c),
{
    build_message(object_id, op_code, ArgWriter::new().u32(a).u32(b).u32(c).build())
}

/// An event whose arguments are four words.
pub open spec fn told4(object_id: u32, op_code: u16, a: u32, b: u32, c: u32, d: u32) -> Message {
    event(object_id, op_code, Seq::empty() + le_bytes(a) + le_bytes(b) + le_bytes(c) + le_bytes(d))
}

/// Build an event whose arguments are four words.
pub fn tell4(object_id: u32, op_code: u16, a: u32, b: u32, c: u32, d: u32) -> (r: WaylandProtocolMessage)
    ensures
        r@ == told4(object_id, op_code, a, b, c, d),
{
    build_message(object_id, op_code, ArgWriter::new().u32(a).u32(b).u32(c).u32(d).build())
}

/// An event whose arguments are five words.
pub open spec fn told5(object_id: u32, op_code: u16, a: u32, b: u32, c: u32, d: u32, e: u32) -> Message {
    event(object_id, op_code, Seq::empty() + le_bytes(a) + le_bytes(b) + le_bytes(c) + le_bytes(d) + le_bytes(e))
}

/// Build an event whose arguments are five words.
pub fn tell5(object_id: u32, op_code: u16, a: u32, b: u32, c: u32, d: u32, e: u32) -> (r: WaylandProtocolMessage)
    ensures
        r@ == told5(object_id, op_code, a, b, c, d, e),
{
    build_message(object_id, op_code, ArgWriter::new().u32(a).u32(b).u32(c).u32(d).u32(e).build())
}

/// An event whose arguments are six words.
pub open spec fn told6(object_id: u32, op_code: u16, a: u32, b: u32, c: u32, d: u32, e: u32, f: u32) -> Message {
    event(object_id, op_code, Seq::empty() + le_bytes(a) + le_bytes(b) + le_bytes(c) + le_bytes(d) + le_bytes(e) + le_bytes(f))
}

/// Build an event whose arguments are six words.
pub fn tell6(object_id: u32, op_code: u16, a: u32, b: u32, c: u32, d: u32, e: u32, f: u32) -> (r: WaylandProtocolMessage)
    ensures
        r@ == told6(object_id, op_code, a, b, c, d, e, f),
{
    build_message(object_id, op_code, ArgWriter::new().u32(a).u32(b).u32(c).u32(d).u32(e).u32(f).build())
}

/// Text short enough for its length to be written down.
pub open spec fn writable(s: Seq<char>) -> bool {
    encode_utf8(s).len() < u32::MAX
}

/// The whole part of a 24.8 fixed-point value, rounded toward zero and held
/// to what an `i32` can carry.
pub open spec fn fixed_whole(v: int) -> i32 {
    let whole = if v >= 0 {
        v / 256
    } else {
        -((-v) / 256)
    };
    if whole < i32::MIN {
        i32::MIN
    } else if whole > i32::MAX {
        i32::MAX
    } else {
        whole as i32
    }
}

/// Drop the fraction of a 24.8 fixed-point value. Saturating, and
/// deliberately so: every value that reaches here has come from a client one
/// way or another - a pointer coordinate is the cursor position less a surface
/// origin the client chose.
pub fn fixed_to_i32(v: i64) -> (r: i32)
    ensures
        r == fixed_whole(v as int),
{
    if v >= 0 {
        let whole: i64 = v / 256;
        if whole > i32::MAX as i64 {
            i32::MAX
        } else {
            whole as i32
        }
    } else if v <= -0x80_0000_0000 {
        i32::MIN
    } else {
        let whole: i64 = -((-v) / 256);
        whole as i32
    }
}

/// The whole part of the difference of two 24.8 fixed-point values.
pub fn fixed_span(a: i64, b: i64) -> (r: i32)
    ensures
        r == fixed_whole(a - b),
{
    let d: i128 = a as i128 - b as i128;
    if d > i64::MAX as i128 {
        i32::MAX
    } else if d < i64::MIN as i128 {
        i32::MIN
    } else {
        fixed_to_i32(d as i64)
    }
}

/// A 24.8 fixed-point value held to what the wire can carry.
pub open spec fn fixed_clamped(v: int) -> i32 {
    if v < i32::MIN {
        i32::MIN
    } else if v > i32::MAX {
        i32::MAX
    } else {
        v as i32
    }
}

/// Hold a 24.8 fixed-point value to what the wire can carry.
pub fn fixed_to_wire(v: i64) -> (r: i32)
    ensures
        r == fixed_clamped(v as int),
{
    if v < i32::MIN as i64 {
        i32::MIN
    } else if v > i32::MAX as i64 {
        i32::MAX
    } else {
        v as i32
    }
}

/// Where a point is as seen from an origin, as the wire carries it.
pub open spec fn local(v: i64, origin: i32) -> i32 {
    fixed_clamped(v - 256 * origin)
}

/// Work out where a point is as seen from an origin.
pub fn fixed_local(v: i64, origin: i32) -> (r: i32)
    ensures
        r == local(v, origin),
{
    let d: i128 = v as i128 - 256 * origin as i128;
    if d > i32::MAX as i128 {
        i32::MAX
    } else if d < i32::MIN as i128 {
        i32::MIN
    } else {
        d as i32
    }
}

} // verus!

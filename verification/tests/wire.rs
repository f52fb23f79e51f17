//! The wire format, and in particular the one distinction it makes that is easy
//! to write past: a null string is not an empty one.

use way_small::wire::{ArgReader, ArgWriter};

#[test]
fn a_null_string_is_not_an_empty_one() {
    // A null string is a length of zero and nothing else. An empty string is a
    // length of one, a NUL byte, and three bytes of padding. Sending the second
    // where the first belongs tells `wl_data_source.target` that a zero-length
    // mime type was accepted, rather than that nothing was.
    let null = ArgWriter::new().string_or_null(None).build();
    let empty = ArgWriter::new().string_or_null(Some("")).build();

    assert_eq!(null, vec![0, 0, 0, 0]);
    assert_eq!(empty, vec![1, 0, 0, 0, 0, 0, 0, 0]);
}

#[test]
fn a_nullable_string_survives_the_round_trip() {
    for value in [None, Some(String::new()), Some("text/plain".to_string())] {
        let args = ArgWriter::new().string_or_null(value.as_deref()).build();
        let mut reader = ArgReader::new(&args);
        assert_eq!(reader.string_or_null(), Some(value));
    }
}

#[test]
fn a_nullable_string_reader_tells_a_short_buffer_from_a_null() {
    // Nothing at all is a decode failure; four zero bytes are a null string.
    assert_eq!(ArgReader::new(&[]).string_or_null(), None);
    assert_eq!(ArgReader::new(&[0, 0, 0, 0]).string_or_null(), Some(None));
}

#[test]
fn a_null_object_is_a_zero_id() {
    assert_eq!(ArgWriter::new().object(None).build(), vec![0, 0, 0, 0]);
    assert_eq!(ArgWriter::new().object(Some(7)).build(), vec![7, 0, 0, 0]);
}

#[test]
fn numbers_go_out_low_byte_first_and_come_back() {
    let args = ArgWriter::new().u32(0x0102_0304).i32(-2).fixed(640).build();
    assert_eq!(args, vec![4, 3, 2, 1, 254, 255, 255, 255, 128, 2, 0, 0]);
    let mut reader = ArgReader::new(&args);
    assert_eq!(reader.u32(), Some(0x0102_0304));
    assert_eq!(reader.i32(), Some(-2));
    assert_eq!(reader.fixed(), Some(640));
    assert_eq!(reader.u32(), None);
}

#[test]
fn a_string_is_padded_to_a_whole_word() {
    let args = ArgWriter::new().string("ab").u32(9).build();
    assert_eq!(args, vec![3, 0, 0, 0, b'a', b'b', 0, 0, 9, 0, 0, 0]);
    let mut reader = ArgReader::new(&args);
    assert_eq!(reader.string().as_deref(), Some("ab"));
    assert_eq!(reader.u32(), Some(9));
}

#[test]
fn bytes_that_are_no_text_are_read_as_replacement_characters() {
    let args = [4, 0, 0, 0, b'a', 0xff, b'b', 0];
    let mut reader = ArgReader::new(&args);
    assert_eq!(reader.string().as_deref(), Some("a\u{fffd}b"));
}

#[test]
fn a_string_longer_than_what_is_there_is_refused() {
    let args = [200, 0, 0, 0, b'a', 0, 0, 0];
    assert_eq!(ArgReader::new(&args).string(), None);
}

#[test]
fn an_array_is_its_length_in_bytes_and_its_members() {
    let args = ArgWriter::new().array_u32(&[1, 2]).build();
    assert_eq!(args, vec![8, 0, 0, 0, 1, 0, 0, 0, 2, 0, 0, 0]);
}

use pw_tokenizer::encode::{
    encode_arg, tokenize_to_buffer, tokenize_to_buffer_no_args, tokenize_to_writer,
    tokenize_to_writer_no_args, Argument, BoundedSink, VecSink,
};
use pw_tokenizer::error::TokenizeError;
use pw_tokenizer::hash::hash_string;
use pw_tokenizer::varint::{encode_u32_base128, zigzag_decode, zigzag_encode};

// Symmetric test decoder: reads one base-128 integer, low group first.
fn decode_u32_base128(bytes: &[u8], pos: usize) -> (u32, usize) {
    let mut value: u32 = 0;
    let mut shift: u32 = 0;
    let mut at: usize = pos;
    loop {
        let b = bytes[at];
        value |= ((b & 0x7f) as u32) << shift;
        at += 1;
        if b < 0x80 {
            return (value, at);
        }
        shift += 7;
    }
}

fn decode_varint(bytes: &[u8], pos: usize) -> (i32, usize) {
    let (z, at) = decode_u32_base128(bytes, pos);
    (zigzag_decode(z), at)
}

fn decode_string(bytes: &[u8], pos: usize) -> (Vec<u8>, usize) {
    let (len, at) = decode_u32_base128(bytes, pos);
    let end = at + len as usize;
    (bytes[at..end].to_vec(), end)
}

#[test]
fn varint_round_trip() {
    let values = [0i32, 1, -1, 2, -2, 5, 63, 64, -64, -65, 127, 128, 300, -300, i32::MAX,
        i32::MIN];
    for v in &values {
        let mut out: Vec<u8> = Vec::new();
        encode_u32_base128(zigzag_encode(*v), &mut out);
        let (decoded, consumed) = decode_varint(&out, 0);
        assert_eq!(decoded, *v);
        assert_eq!(consumed, out.len());
    }
}

#[test]
fn varint_small_values_take_one_byte() {
    for v in [0i32, 1, -1, 5, -5, 63, -64] {
        let mut out: Vec<u8> = Vec::new();
        encode_u32_base128(zigzag_encode(v), &mut out);
        assert_eq!(out.len(), 1);
    }
}

#[test]
fn string_argument_round_trip() {
    let mut out: Vec<u8> = Vec::new();
    encode_arg(&Argument::String("hello, log"), &mut out);
    let (decoded, consumed) = decode_string(&out, 0);
    assert_eq!(decoded, b"hello, log".to_vec());
    assert_eq!(consumed, out.len());
}

#[test]
fn char_argument_round_trip() {
    let mut out: Vec<u8> = Vec::new();
    encode_arg(&Argument::Char(b'x'), &mut out);
    assert_eq!(out, vec![b'x']);
}

#[test]
fn mixed_arguments_round_trip() {
    let args = [
        Argument::Varint(-12345),
        Argument::String("name"),
        Argument::Char(b'!'),
        Argument::Varint(7),
    ];
    let token = hash_string("%d %s %c %d");
    let out = tokenize_to_buffer(256, token, &args).unwrap();
    // The token comes first, least significant byte first.
    assert_eq!(out[0], (token & 0xff) as u8);
    assert_eq!(out[1], ((token >> 8) & 0xff) as u8);
    assert_eq!(out[2], ((token >> 16) & 0xff) as u8);
    assert_eq!(out[3], ((token >> 24) & 0xff) as u8);
    let (v1, p1) = decode_varint(&out, 4);
    let (s, p2) = decode_string(&out, p1);
    let c = out[p2];
    let (v2, p3) = decode_varint(&out, p2 + 1);
    assert_eq!(v1, -12345);
    assert_eq!(s, b"name".to_vec());
    assert_eq!(c, b'!');
    assert_eq!(v2, 7);
    assert_eq!(p3, out.len());
}

#[test]
fn token_is_written_first_little_endian() {
    let out = tokenize_to_buffer_no_args(4, 0x12345678).unwrap();
    assert_eq!(out, vec![0x78, 0x56, 0x34, 0x12]);
}

#[test]
fn buffer_exhausted_when_message_does_not_fit() {
    let r = tokenize_to_buffer(3, 0x12345678, &[]);
    assert_eq!(r, Err(TokenizeError::BufferExhausted));
    let r = tokenize_to_buffer(4, 0x12345678, &[Argument::Varint(5)]);
    assert_eq!(r, Err(TokenizeError::BufferExhausted));
    let r = tokenize_to_buffer_no_args(0, 0);
    assert_eq!(r, Err(TokenizeError::BufferExhausted));
}

#[test]
fn buffer_fits_exactly() {
    let out = tokenize_to_buffer(5, 0xdeadbeef, &[Argument::Varint(5)]).unwrap();
    assert_eq!(out.len(), 5);
    assert_eq!(out[4], 10);
}

#[test]
fn writer_and_buffer_produce_identical_wire_bytes() {
    let args = [Argument::Varint(-3), Argument::String("s"), Argument::Char(7)];
    let token = hash_string("%d%s%c");
    let buffered = tokenize_to_buffer(64, token, &args).unwrap();
    let mut sink = VecSink::new();
    let n = tokenize_to_writer(&mut sink, token, &args).unwrap();
    assert_eq!(sink.data, buffered);
    assert_eq!(n, buffered.len());
    let buffered_plain = tokenize_to_buffer_no_args(64, token).unwrap();
    let mut sink_plain = VecSink::new();
    let n_plain = tokenize_to_writer_no_args(&mut sink_plain, token).unwrap();
    assert_eq!(sink_plain.data, buffered_plain);
    assert_eq!(n_plain, 4);
}

#[test]
fn bounded_sink_reports_write_error() {
    let mut sink = BoundedSink::new(3);
    let r = tokenize_to_writer_no_args(&mut sink, 0xabcdef01);
    assert_eq!(r, Err(TokenizeError::Write));
    assert!(sink.data.is_empty());
    let mut sink = BoundedSink::new(4);
    let r = tokenize_to_writer(&mut sink, 0xabcdef01, &[Argument::Varint(1)]);
    assert_eq!(r, Err(TokenizeError::Write));
    // The token fragment was accepted whole; the argument fragment was not.
    assert_eq!(sink.data, vec![0x01, 0xef, 0xcd, 0xab]);
}

#[test]
fn empty_string_argument_encodes_as_zero_length() {
    let mut out: Vec<u8> = Vec::new();
    encode_arg(&Argument::String(""), &mut out);
    assert_eq!(out, vec![0]);
}

use tuio::decode::{decode, decode_timetag};
use tuio::encode::{arg_is_ok, encode_bundle, encode_message, is_plain, message_is_ok};
use tuio::errors::TuioError;
use tuio::osc::{OscArg, OscMessage, TimeTag};
use tuio::wire::{get_word, put_word};

fn message(address: &str, args: Vec<OscArg>) -> OscMessage {
    OscMessage { address: address.as_bytes().to_vec(), args }
}

fn float(x: f32) -> OscArg {
    OscArg::Float(x.to_bits())
}

fn string(s: &str) -> OscArg {
    OscArg::Str(s.as_bytes().to_vec())
}

fn sample() -> OscMessage {
    message(
        "/foo",
        vec![OscArg::Int(1000), OscArg::Int(-1), string("hello"), float(1.234), float(5.678)],
    )
}

fn sample_bytes() -> Vec<u8> {
    vec![
        0x2f, 0x66, 0x6f, 0x6f, 0x00, 0x00, 0x00, 0x00, 0x2c, 0x69, 0x69, 0x73, 0x66, 0x66, 0x00,
        0x00, 0x00, 0x00, 0x03, 0xe8, 0xff, 0xff, 0xff, 0xff, 0x68, 0x65, 0x6c, 0x6c, 0x6f, 0x00,
        0x00, 0x00, 0x3f, 0x9d, 0xf3, 0xb6, 0x40, 0xb5, 0xb2, 0x2d,
    ]
}

#[test]
fn encode_message_gives_the_documented_bytes() {
    assert_eq!(encode_message(&sample()), Ok(sample_bytes()));
}

#[test]
fn encode_message_pads_a_full_word_after_a_string_on_the_boundary() {
    let m = message("/oscillator/4/frequency", vec![float(440.0)]);
    let bytes = encode_message(&m).unwrap();
    let mut expected = b"/oscillator/4/frequency\0,f\0\0".to_vec();
    expected.extend_from_slice(&[0x43, 0xdc, 0x00, 0x00]);
    assert_eq!(bytes, expected);
    let four = message("/abc", vec![]);
    assert_eq!(encode_message(&four).unwrap(), b"/abc\0\0\0\0,\0\0\0".to_vec());
}

#[test]
fn decode_reads_the_documented_bytes() {
    assert_eq!(decode(&sample_bytes()), Ok(vec![sample()]));
}

#[test]
fn decode_undoes_encode_message() {
    let m = message(
        "/tuio/2Dcur",
        vec![
            string("set"),
            OscArg::Int(i32::MIN),
            OscArg::Int(i32::MAX),
            float(-0.0),
            OscArg::Float(0x7fc0_0001),
            string(""),
            string("abcd"),
            OscArg::Blob(vec![]),
            OscArg::Blob(vec![1, 0, 2]),
            OscArg::Blob(vec![0, 0, 0, 0]),
        ],
    );
    let bytes = encode_message(&m).unwrap();
    assert_eq!(bytes.len() % 4, 0);
    assert_eq!(decode(&bytes), Ok(vec![m]));
}

#[test]
fn encode_undoes_decode_on_a_message_packet() {
    let bytes = sample_bytes();
    let decoded = decode(&bytes).unwrap();
    assert_eq!(decoded.len(), 1);
    assert_eq!(encode_message(&decoded[0]), Ok(bytes));
}

#[test]
fn blob_is_sized_and_padded() {
    let m = message("/b", vec![OscArg::Blob(vec![9, 8, 7, 6, 5])]);
    let bytes = encode_message(&m).unwrap();
    assert_eq!(
        bytes,
        vec![
            0x2f, 0x62, 0x00, 0x00, 0x2c, 0x62, 0x00, 0x00, 0x00, 0x00, 0x00, 0x05, 9, 8, 7, 6, 5,
            0, 0, 0
        ]
    );
    assert_eq!(decode(&bytes), Ok(vec![m]));
}

#[test]
fn encode_message_refuses_what_has_no_encoding() {
    assert_eq!(encode_message(&message("", vec![])), Err(TuioError::FormatError));
    assert_eq!(encode_message(&message("foo", vec![])), Err(TuioError::FormatError));
    assert_eq!(encode_message(&message("/a\0b", vec![])), Err(TuioError::FormatError));
    assert_eq!(
        encode_message(&message("/a", vec![OscArg::Str(vec![0x61, 0x00])])),
        Err(TuioError::FormatError)
    );
    assert_eq!(
        encode_bundle(&vec![sample(), message("nope", vec![])], TimeTag { seconds: 0, fraction: 1 }),
        Err(TuioError::FormatError)
    );
}

#[test]
fn bundle_wraps_messages_in_order() {
    let a = message("/a", vec![OscArg::Int(1)]);
    let b = message("/b", vec![string("x")]);
    let t = TimeTag { seconds: 0x0102_0304, fraction: 0x0506_0708 };
    let bytes = encode_bundle(&vec![a.clone(), b.clone()], t).unwrap();
    let mut expected = b"#bundle\0".to_vec();
    expected.extend_from_slice(&[1, 2, 3, 4, 5, 6, 7, 8]);
    expected.extend_from_slice(&[0, 0, 0, 12]);
    expected.extend_from_slice(b"/a\0\0,i\0\0");
    expected.extend_from_slice(&[0, 0, 0, 1]);
    expected.extend_from_slice(&[0, 0, 0, 12]);
    expected.extend_from_slice(b"/b\0\0,s\0\0x\0\0\0");
    assert_eq!(bytes, expected);
    assert_eq!(decode(&bytes), Ok(vec![a, b]));
}

#[test]
fn empty_bundle_holds_no_message() {
    let bytes = encode_bundle(&vec![], TimeTag { seconds: 0, fraction: 1 }).unwrap();
    assert_eq!(bytes, b"#bundle\0\0\0\0\0\0\0\0\x01".to_vec());
    assert_eq!(decode(&bytes), Ok(vec![]));
}

#[test]
fn nested_bundles_are_flattened_depth_first() {
    let a = message("/a", vec![]);
    let b = message("/b", vec![]);
    let c = message("/c", vec![]);
    let t = TimeTag { seconds: 0, fraction: 1 };
    let inner = encode_bundle(&vec![b.clone(), c.clone()], t).unwrap();
    let first = encode_message(&a).unwrap();
    let last = encode_message(&a).unwrap();
    let mut outer = b"#bundle\0\0\0\0\0\0\0\0\x01".to_vec();
    for part in [&first, &inner, &last] {
        outer.extend_from_slice(&(part.len() as u32).to_be_bytes());
        outer.extend_from_slice(part);
    }
    assert_eq!(decode(&outer), Ok(vec![a.clone(), b, c, a]));
}

#[test]
fn decode_refuses_truncated_bytes() {
    let bytes = sample_bytes();
    for cut in 0..bytes.len() {
        assert_eq!(decode(&bytes[..cut]), Err(TuioError::FormatError), "cut at {}", cut);
    }
}

#[test]
fn decode_refuses_trailing_bytes() {
    let mut bytes = sample_bytes();
    bytes.extend_from_slice(&[0, 0, 0, 0]);
    assert_eq!(decode(&bytes), Err(TuioError::FormatError));
}

#[test]
fn decode_refuses_an_unknown_type_tag() {
    let bytes = b"/a\0\0,x\0\0\0\0\0\0".to_vec();
    assert_eq!(decode(&bytes), Err(TuioError::FormatError));
    let double = b"/a\0\0,d\0\0\0\0\0\0\0\0\0\0".to_vec();
    assert_eq!(decode(&double), Err(TuioError::FormatError));
}

#[test]
fn decode_refuses_a_string_without_terminator_or_padding() {
    assert_eq!(decode(b"/abc"), Err(TuioError::FormatError));
    assert_eq!(decode(b"/abc,\0\0\0"), Err(TuioError::FormatError));
    assert_eq!(decode(b"/ab\0,\0\0"), Err(TuioError::FormatError));
    assert_eq!(decode(b"/a\0x,\0\0\0"), Err(TuioError::FormatError));
    assert_eq!(decode(b"/a\0\0,s\0\0ab\0x"), Err(TuioError::FormatError));
    assert_eq!(decode(b"/a\0\0,s\0\0ab\0\0"), Ok(vec![message("/a", vec![string("ab")])]));
}

#[test]
fn decode_refuses_a_message_without_slash_or_comma() {
    assert_eq!(decode(b"abc\0,\0\0\0"), Err(TuioError::FormatError));
    assert_eq!(decode(b"/ab\0i\0\0\0"), Err(TuioError::FormatError));
    assert_eq!(decode(b"/ab\0"), Err(TuioError::FormatError));
    assert_eq!(decode(b""), Err(TuioError::FormatError));
}

#[test]
fn decode_refuses_a_blob_longer_than_the_packet() {
    let mut bytes = b"/a\0\0,b\0\0".to_vec();
    bytes.extend_from_slice(&[0, 0, 0, 8, 1, 2, 3, 4]);
    assert_eq!(decode(&bytes), Err(TuioError::FormatError));
    let mut negative = b"/a\0\0,b\0\0".to_vec();
    negative.extend_from_slice(&[0xff, 0xff, 0xff, 0xfc]);
    assert_eq!(decode(&negative), Err(TuioError::FormatError));
    let mut unpadded = b"/a\0\0,b\0\0".to_vec();
    unpadded.extend_from_slice(&[0, 0, 0, 1, 7, 0, 0, 1]);
    assert_eq!(decode(&unpadded), Err(TuioError::FormatError));
}

#[test]
fn decode_refuses_a_bundle_element_longer_than_the_rest() {
    let mut bytes = b"#bundle\0\0\0\0\0\0\0\0\x01".to_vec();
    bytes.extend_from_slice(&[0, 0, 0, 16]);
    bytes.extend_from_slice(b"/a\0\0,\0\0\0");
    assert_eq!(decode(&bytes), Err(TuioError::FormatError));
    let mut negative = b"#bundle\0\0\0\0\0\0\0\0\x01".to_vec();
    negative.extend_from_slice(&[0x80, 0, 0, 0]);
    assert_eq!(decode(&negative), Err(TuioError::FormatError));
    assert_eq!(decode(b"#bundle\0\0\0\0\0"), Err(TuioError::FormatError));
    let mut short = b"#bundle\0\0\0\0\0\0\0\0\x01".to_vec();
    short.extend_from_slice(&[0, 0]);
    assert_eq!(decode(&short), Err(TuioError::FormatError));
}

#[test]
fn timetag_is_read_from_a_bundle_only() {
    let t = TimeTag { seconds: 0xdead_beef, fraction: 0x0000_0001 };
    let bytes = encode_bundle(&vec![sample()], t).unwrap();
    assert_eq!(decode_timetag(&bytes), Some(t));
    assert_eq!(decode_timetag(&sample_bytes()), None);
    assert_eq!(decode_timetag(b"#bundle\0\0\0\0"), None);
    assert_eq!(decode_timetag(b""), None);
}

#[test]
fn encode_undoes_decode_on_a_flat_bundle() {
    let t = TimeTag { seconds: 7, fraction: 9 };
    let bytes = encode_bundle(&vec![sample(), message("/x", vec![])], t).unwrap();
    let messages = decode(&bytes).unwrap();
    let stamp = decode_timetag(&bytes).unwrap();
    assert_eq!(encode_bundle(&messages, stamp), Ok(bytes));
}

#[test]
fn checks_agree_with_the_encoder() {
    assert!(is_plain(b"abc"));
    assert!(is_plain(b""));
    assert!(!is_plain(b"a\0c"));
    assert!(arg_is_ok(&OscArg::Blob(vec![0, 0])));
    assert!(!arg_is_ok(&OscArg::Str(vec![0])));
    assert!(message_is_ok(&sample()));
    assert!(!message_is_ok(&message("x", vec![])));
}

#[test]
fn words_are_big_endian() {
    let mut out = vec![0xaa];
    put_word(&mut out, 0x0102_0304);
    assert_eq!(out, vec![0xaa, 1, 2, 3, 4]);
    assert_eq!(get_word(&out, 1), 0x0102_0304);
    assert_eq!(get_word(&[0xff, 0xff, 0xff, 0xfe], 0), 0xffff_fffe);
}

#[test]
fn immediate_timetag_is_zero_seconds_and_one_fraction() {
    assert_eq!(TimeTag::immediate(), TimeTag { seconds: 0, fraction: 1 });
    assert!(TimeTag::immediate().is_immediate());
    assert!(!TimeTag { seconds: 1, fraction: 1 }.is_immediate());
    assert!(!TimeTag { seconds: 0, fraction: 0 }.is_immediate());
    let bytes = encode_bundle(&vec![], TimeTag::immediate()).unwrap();
    assert_eq!(decode_timetag(&bytes), Some(TimeTag::immediate()));
}

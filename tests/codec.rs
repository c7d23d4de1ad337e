use myway::args::Args;
use myway::buffer::RecvHalf;
use myway::encode::{
    encode_array, encode_fixed, encode_int, encode_nullable_object, encode_nullable_string, encode_string,
    encode_uint, string_encoded_len,
};
use myway::objects::AnyObject;
use myway::wire::{Fixed, Id, WireError};

fn words_of(bytes: &[u8]) -> Vec<u32> {
    bytes.chunks(4).map(|c| u32::from_ne_bytes([c[0], c[1], c[2], c[3]])).collect()
}

fn bytes_of(words: &[u32]) -> Vec<u8> {
    words.iter().flat_map(|w| w.to_ne_bytes()).collect()
}

#[test]
fn string_decodes_from_padded_words() {
    let mut words = vec![6u32];
    words.extend(words_of(b"hello\0\0\0"));
    let mut args = Args::new(&words);
    assert_eq!(args.take_string(false), Ok(Some("hello".to_string())));
    assert_eq!(args.finish(), Ok(()));
}

#[test]
fn string_round_trips_non_ascii_and_empty() {
    for s in ["héllo wörld ✓", "", "abc", "abcd"] {
        let mut out = Vec::new();
        encode_string(&mut out, s);
        assert_eq!(out.len(), string_encoded_len(s));
        assert_eq!(out[0] as usize, s.len() + 1);
        let mut args = Args::new(&out);
        assert_eq!(args.take_string(false), Ok(Some(s.to_string())));
        assert_eq!(args.finish(), Ok(()));
    }
}

#[test]
fn string_words_hold_the_bytes() {
    let mut out = Vec::new();
    encode_string(&mut out, "wl_shm");
    assert_eq!(out.len(), 3);
    assert_eq!(bytes_of(&out[1..]), b"wl_shm\0\0".to_vec());
}

#[test]
fn nullable_string_round_trips() {
    let mut out = Vec::new();
    encode_nullable_string(&mut out, None);
    encode_nullable_string(&mut out, Some("x"));
    assert_eq!(out[0], 0);
    let mut args = Args::new(&out);
    assert_eq!(args.take_string(true), Ok(None));
    assert_eq!(args.take_string(true), Ok(Some("x".to_string())));
}

#[test]
fn string_errors() {
    let null = [0u32];
    assert_eq!(Args::new(&null).take_string(false), Err(WireError::NullArgument));
    let mut no_nul = vec![4u32];
    no_nul.extend(words_of(b"abcd"));
    assert_eq!(Args::new(&no_nul).take_string(false), Err(WireError::NotNulTerminated));
    let mut interior = vec![4u32];
    interior.extend(words_of(b"a\0b\0"));
    assert_eq!(Args::new(&interior).take_string(false), Err(WireError::InteriorNul));
    let mut bad_utf8 = vec![3u32];
    bad_utf8.extend(words_of(&[0xff, 0xfe, 0, 0]));
    assert_eq!(Args::new(&bad_utf8).take_string(false), Err(WireError::InvalidUtf8));
    let truncated = [9u32, 0];
    assert_eq!(Args::new(&truncated).take_string(false), Err(WireError::TooFewArgs));
}

#[test]
fn primitives_round_trip() {
    let mut out = Vec::new();
    encode_uint(&mut out, 0xdead_beef);
    encode_int(&mut out, -5);
    encode_fixed(&mut out, Fixed(-256));
    encode_nullable_object::<AnyObject>(&mut out, Id::new(7));
    encode_nullable_object::<AnyObject>(&mut out, None);
    encode_array(&mut out, &[1, 2, 3]);
    let mut args = Args::new(&out);
    assert_eq!(args.take_uint(), Ok(0xdead_beef));
    assert_eq!(args.take_int(), Ok(-5));
    assert_eq!(args.take_fixed(), Ok(Fixed(-256)));
    assert_eq!(args.take_nullable_object::<AnyObject>().map(|o| o.map(|i| i.get())), Ok(Some(7)));
    assert_eq!(args.take_nullable_object::<AnyObject>().map(|o| o.is_none()), Ok(true));
    assert_eq!(args.take_array(), Ok(vec![1, 2, 3]));
    assert_eq!(args.finish(), Ok(()));
}

#[test]
fn ids_reject_null_and_missing_words() {
    let words = [0u32];
    assert_eq!(Args::new(&words).take_object::<AnyObject>().map(|i| i.get()), Err(WireError::NullArgument));
    let empty: [u32; 0] = [];
    assert_eq!(Args::new(&empty).take_uint(), Err(WireError::TooFewArgs));
    let extra = [1u32];
    assert_eq!(Args::new(&extra).finish(), Err(WireError::TooManyArgs));
    let short_array = [3u32, 1];
    assert_eq!(Args::new(&short_array).take_array(), Err(WireError::TooFewArgs));
}

fn frame_error(words: &[u32]) -> Option<WireError> {
    let mut half = RecvHalf::new();
    half.push_bytes(&bytes_of(words));
    half.poll_recv().err()
}

#[test]
fn framing_rejects_malformed_headers_at_once() {
    assert_eq!(frame_error(&[1, 4 << 16]), Some(WireError::LengthTooShort));
    assert_eq!(frame_error(&[1, 10 << 16]), Some(WireError::LengthNotAligned));
    assert_eq!(frame_error(&[1, 8000 << 16]), Some(WireError::LengthTooLong));
    assert_eq!(frame_error(&[0, 8 << 16]), Some(WireError::NullTarget));
}

#[test]
fn framing_waits_for_a_whole_message() {
    let mut half = RecvHalf::new();
    let words = [5u32, (16 << 16) | 3, 10, 11];
    let bytes = bytes_of(&words);
    half.push_bytes(&bytes[..6]);
    assert!(matches!(half.poll_recv(), Ok(None)));
    half.push_bytes(&bytes[6..]);
    let message = half.poll_recv().unwrap().unwrap();
    assert_eq!(message.object_id().get(), 5);
    assert_eq!(message.opcode(), 3);
    assert_eq!(message.args(), &[10, 11]);
    assert!(half.at_boundary());
}

#[test]
fn received_fds_come_out_in_order() {
    let mut half = RecvHalf::new();
    assert_eq!(half.push_fds(&[3, 4]), Ok(()));
    assert_eq!(half.take_fd(), Ok(3));
    assert_eq!(half.take_fd(), Ok(4));
    assert_eq!(half.take_fd(), Err(WireError::MissingFd));
    assert_eq!(half.push_fds(&[0; 9]), Err(WireError::TooManyFds));
}

use bytes::Bytes;
use mini_redis::{Del, Frame, Parse, ParseError};

fn bulk_bytes(f: &Frame) -> Vec<u8> {
    match f {
        Frame::Bulk(b) => b.to_vec(),
        other => panic!("expected a bulk frame, got {:?}", other),
    }
}

fn parts(f: Frame) -> Vec<Frame> {
    match f {
        Frame::Array(v) => v,
        other => panic!("expected an array frame, got {:?}", other),
    }
}

fn keys_of(d: Del) -> Vec<Vec<u8>> {
    parts(d.into_frame()).iter().skip(1).map(bulk_bytes).collect()
}

fn array(v: Vec<Frame>) -> Frame {
    Frame::Array(v)
}

#[test]
fn into_frame_sends_name_then_keys() {
    let d = Del::new(vec!["foo".to_string(), "bär".to_string()]);
    let p = parts(d.into_frame());
    assert_eq!(p.len(), 3);
    assert_eq!(bulk_bytes(&p[0]), b"del".to_vec());
    assert_eq!(bulk_bytes(&p[1]), b"foo".to_vec());
    assert_eq!(bulk_bytes(&p[2]), "bär".as_bytes().to_vec());
}

#[test]
fn into_frame_without_keys() {
    let p = parts(Del::new(vec![]).into_frame());
    assert_eq!(p.len(), 1);
    assert_eq!(bulk_bytes(&p[0]), b"del".to_vec());
}

#[test]
fn parse_frames_reads_every_string_part() {
    let f = array(vec![
        Frame::Simple("a".to_string()),
        Frame::Bulk(Bytes::from_static(b"b")),
    ]);
    let mut parse = Parse::new(f).unwrap();
    let d = Del::parse_frames(&mut parse).unwrap();
    assert_eq!(keys_of(d), vec![b"a".to_vec(), b"b".to_vec()]);
    assert_eq!(parse.next_string(), Err(ParseError::EndOfStream));
}

#[test]
fn parse_frames_stops_at_first_non_string_and_takes_it() {
    let f = array(vec![
        Frame::Simple("a".to_string()),
        Frame::Integer(7),
        Frame::Simple("c".to_string()),
    ]);
    let mut parse = Parse::new(f).unwrap();
    let d = Del::parse_frames(&mut parse).unwrap();
    assert_eq!(keys_of(d), vec![b"a".to_vec()]);
    assert_eq!(parse.next_string(), Ok("c".to_string()));
    assert_eq!(parse.next_string(), Err(ParseError::EndOfStream));
}

#[test]
fn parse_frames_stops_at_invalid_utf8() {
    let f = array(vec![
        Frame::Bulk(Bytes::from_static(b"k1")),
        Frame::Bulk(Bytes::from_static(&[0xff, 0xfe])),
        Frame::Bulk(Bytes::from_static(b"k3")),
    ]);
    let mut parse = Parse::new(f).unwrap();
    let d = Del::parse_frames(&mut parse).unwrap();
    assert_eq!(keys_of(d), vec![b"k1".to_vec()]);
    assert_eq!(parse.next_string(), Ok("k3".to_string()));
}

#[test]
fn parse_frames_on_no_parts() {
    let mut parse = Parse::new(array(vec![])).unwrap();
    let d = Del::parse_frames(&mut parse).unwrap();
    assert!(keys_of(d).is_empty());
    assert_eq!(parse.next_string(), Err(ParseError::EndOfStream));
}

#[test]
fn round_trip_through_frame() {
    let keys = vec!["x".to_string(), "".to_string(), "日本".to_string()];
    let frame = Del::new(keys.clone()).into_frame();
    let mut parse = Parse::new(frame).unwrap();
    assert_eq!(parse.next_string(), Ok("del".to_string()));
    let d = Del::parse_frames(&mut parse).unwrap();
    let expected: Vec<Vec<u8>> = keys.iter().map(|k| k.as_bytes().to_vec()).collect();
    assert_eq!(keys_of(d), expected);
    assert_eq!(parse.next_string(), Err(ParseError::EndOfStream));
}

#[test]
fn parse_new_refuses_non_array() {
    assert_eq!(Parse::new(Frame::Null).err(), Some(ParseError::ExpectedArray));
    assert_eq!(Parse::new(Frame::Simple("del".to_string())).err(), Some(ParseError::ExpectedArray));
}

#[test]
fn next_string_errors() {
    let f = array(vec![
        Frame::Integer(1),
        Frame::Bulk(Bytes::from_static(&[0xc3])),
        Frame::Error("e".to_string()),
        Frame::Null,
    ]);
    let mut parse = Parse::new(f).unwrap();
    assert_eq!(parse.next_string(), Err(ParseError::ExpectedString));
    assert_eq!(parse.next_string(), Err(ParseError::InvalidString));
    assert_eq!(parse.next_string(), Err(ParseError::ExpectedString));
    assert_eq!(parse.next_string(), Err(ParseError::ExpectedString));
    assert_eq!(parse.next_string(), Err(ParseError::EndOfStream));
    assert_eq!(parse.next_string(), Err(ParseError::EndOfStream));
}

#[test]
fn next_hands_out_parts_in_order() {
    let f = array(vec![Frame::Integer(1), Frame::Integer(2)]);
    let mut parse = Parse::new(f).unwrap();
    assert!(matches!(parse.next(), Ok(Frame::Integer(1))));
    assert!(matches!(parse.next(), Ok(Frame::Integer(2))));
    assert!(matches!(parse.next(), Err(ParseError::EndOfStream)));
}

#[test]
fn frame_array_and_push_bulk() {
    let mut f = Frame::array();
    f.push_bulk(Bytes::from_static(b"one"));
    f.push_bulk(Bytes::from_static(b"two"));
    let p = parts(f);
    assert_eq!(p.len(), 2);
    assert_eq!(bulk_bytes(&p[0]), b"one".to_vec());
    assert_eq!(bulk_bytes(&p[1]), b"two".to_vec());
}

#[test]
fn response_counts_removed_keys() {
    assert!(matches!(Del::response(3), Frame::Integer(3)));
    assert!(matches!(Del::response(0), Frame::Integer(0)));
}

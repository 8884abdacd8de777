use skynet::codec::{decode_prefix, encode_prefix, PREFIX_LEN};
use skynet::datagram::{datagram_payload, recv_capacity};
use skynet::frame::{encode_frame, FrameError};
use skynet::stream::RecvBuffer;

#[test]
fn test_u64_size() {
    assert_eq!(bincode::serialized_size(&666_u64).unwrap(), 8);
    assert_eq!(encode_prefix(666).len(), 8);
}

#[test]
fn prefix_is_eight_bytes_at_the_bounds() {
    assert_eq!(encode_prefix(0), vec![0u8; 8]);
    assert_eq!(encode_prefix(u64::MAX), vec![255u8; 8]);
    assert_eq!(encode_prefix(65507).len(), PREFIX_LEN);
}

#[test]
fn prefix_is_little_endian() {
    assert_eq!(
        encode_prefix(0x0807_0605_0403_0201),
        vec![1u8, 2, 3, 4, 5, 6, 7, 8]
    );
    assert_eq!(encode_prefix(666), bincode::serialize(&666_u64).unwrap());
}

#[test]
fn prefix_reads_back() {
    assert_eq!(decode_prefix(&encode_prefix(0)), Some(0));
    assert_eq!(decode_prefix(&encode_prefix(u64::MAX)), Some(u64::MAX));
    assert_eq!(decode_prefix(&[1, 2, 3, 4, 5, 6, 7, 8, 99]), Some(0x0807_0605_0403_0201));
    assert_eq!(decode_prefix(&[1, 2, 3, 4, 5, 6, 7]), None);
    assert_eq!(decode_prefix(&[]), None);
}

#[test]
fn frame_is_prefix_then_payload() {
    assert_eq!(encode_frame(&[7, 9]), vec![2u8, 0, 0, 0, 0, 0, 0, 0, 7, 9]);
    assert_eq!(encode_frame(&[]), vec![0u8; 8]);
}

#[test]
fn stream_delivers_one_byte_value() {
    let payload = bincode::serialize(&123_u8).unwrap();
    assert_eq!(payload.len(), 1);
    let mut buf = RecvBuffer::new();
    let got = buf.poll(&encode_frame(&payload)).unwrap();
    assert_eq!(bincode::deserialize::<u8>(&got).unwrap(), 123);
    assert_eq!(buf.len(), 0);
}

#[test]
fn stream_round_trips_option() {
    let payload = bincode::serialize(&Some(123_u8)).unwrap();
    let mut buf = RecvBuffer::new();
    let got = buf.poll(&encode_frame(&payload)).unwrap();
    assert_eq!(bincode::deserialize::<Option<u8>>(&got).unwrap(), Some(123_u8));
}

#[test]
fn stream_round_trips_string() {
    let payload = bincode::serialize(&String::from("framed")).unwrap();
    let mut buf = RecvBuffer::new();
    let got = buf.poll(&encode_frame(&payload)).unwrap();
    assert_eq!(got.len(), payload.len());
    assert_eq!(bincode::deserialize::<String>(&got).unwrap(), "framed");
}

#[test]
fn empty_buffer_would_block() {
    let mut buf = RecvBuffer::new();
    assert_eq!(buf.take_frame(), Err(FrameError::WouldBlock));
    assert_eq!(buf.poll(&[]), Err(FrameError::WouldBlock));
    assert_eq!(buf.len(), 0);
}

#[test]
fn byte_at_a_time_yields_one_message() {
    let payload = bincode::serialize(&666_i32).unwrap();
    let frame = encode_frame(&payload);
    let mut buf = RecvBuffer::new();
    for (i, b) in frame.iter().enumerate() {
        let r = buf.poll(&[*b]);
        if i + 1 < frame.len() {
            assert_eq!(r, Err(FrameError::WouldBlock));
            assert_eq!(buf.len(), i + 1);
        } else {
            assert_eq!(r, Ok(payload.clone()));
            assert_eq!(buf.len(), 0);
        }
    }
}

#[test]
fn partial_frames_carry_over() {
    let p1 = bincode::serialize(&1_u32).unwrap();
    let p2 = bincode::serialize(&String::from("two")).unwrap();
    let p3 = bincode::serialize(&3_u64).unwrap();
    let f3 = encode_frame(&p3);
    let mut first = encode_frame(&p1);
    first.extend_from_slice(&encode_frame(&p2));
    first.extend_from_slice(&f3[..5]);
    let mut buf = RecvBuffer::new();
    assert_eq!(buf.poll(&first), Ok(p1));
    assert_eq!(buf.poll(&[]), Ok(p2));
    assert_eq!(buf.poll(&[]), Err(FrameError::WouldBlock));
    assert_eq!(buf.len(), 5);
    let got = buf.poll(&f3[5..]).unwrap();
    assert_eq!(bincode::deserialize::<u64>(&got).unwrap(), 3);
    assert_eq!(buf.len(), 0);
}

#[test]
fn take_frame_leaves_following_bytes() {
    let mut buf = RecvBuffer::new();
    buf.push_bytes(&[1, 0, 0, 0, 0, 0, 0, 0, 42, 9, 9]);
    assert_eq!(buf.take_frame(), Ok(vec![42u8]));
    assert_eq!(buf.len(), 2);
    assert_eq!(buf.take_frame(), Err(FrameError::WouldBlock));
    assert_eq!(buf.len(), 2);
}

#[test]
fn datagram_delivers_four_byte_value() {
    let payload = bincode::serialize(&666_i32).unwrap();
    let d = encode_frame(&payload);
    assert_eq!(d.len(), 12);
    assert_eq!(recv_capacity(&d[..8]), Ok(13));
    let got = datagram_payload(&d).unwrap();
    assert_eq!(bincode::deserialize::<i32>(&got).unwrap(), 666);
}

#[test]
fn datagram_too_short() {
    assert_eq!(recv_capacity(&[4, 0, 0]), Err(FrameError::ShortDatagram));
    assert_eq!(datagram_payload(&[4, 0, 0, 0, 0, 0, 0]), Err(FrameError::ShortDatagram));
}

#[test]
fn datagram_length_mismatch() {
    assert_eq!(
        datagram_payload(&[2, 0, 0, 0, 0, 0, 0, 0, 1]),
        Err(FrameError::LengthMismatch)
    );
    assert_eq!(
        datagram_payload(&[2, 0, 0, 0, 0, 0, 0, 0, 1, 2, 3]),
        Err(FrameError::LengthMismatch)
    );
    assert_eq!(datagram_payload(&[0u8; 8]), Ok(vec![]));
}

#[test]
fn datagram_prefix_too_large() {
    assert_eq!(recv_capacity(&[255u8; 8]), Err(FrameError::TooLarge));
    assert_eq!(recv_capacity(&encode_prefix(0)), Ok(9));
}
